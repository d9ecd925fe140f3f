//! Entity blocks: owned, identified parts of an aggregate with their own
//! commands, queries and lifecycle.

use vstd::prelude::*;
use crate::text::{Stop, eq_str, lines_of, opt_string, starts_with, starts_with_str, string_of, strip_both_exec, strs_view, trim, trim_exec, views, words_exec};
use crate::ir::{Entity, EntityModel, Query, QueryModel, Step, StepModel, group_views};
use crate::helpers::{ends_with_do_block_chars, extract_second_string_chars, extract_string_chars, extract_symbol_chars, is_shorthand_command_chars, is_shorthand_line_chars, opens_do_block, or_default, parse_shorthand_attribute_chars, second_literal, shorthand_attribute, shorthand_command, shorthand_line, string_literal, symbol_of};
use crate::blocks::attribute::{attribute_of, lemma_lifecycle_block, lifecycle_block, parse_attribute_chars, parse_lifecycle_chars};
use crate::blocks::command::{command_block, lemma_command_block, parse_command_chars};
use crate::blocks::query::{lemma_query_block, parse_query_chars, query_block, query_name};
use crate::blocks::rule::{lemma_rule_block, rule_block, rule_block_exec};

verus! {

broadcast use crate::ir::group_views;

/// A one-line `query "Name"[, "description"]` with nothing else.
pub open spec fn simple_query(line: Seq<char>) -> QueryModel {
    QueryModel {
        name: query_name(line),
        description: second_literal(line),
        attributes: Seq::empty(),
        wheres: Seq::empty(),
        order_by: None,
        limit: None,
        reduction: None,
        group_by: None,
        scope_to: None,
    }
}

/// One step of an entity's body at line `at + i`, depth `depth`.
pub open spec fn entity_next(ls: Seq<Seq<char>>, at: int, i: int, depth: int, e: EntityModel) -> StepModel<EntityModel> {
    let line = trim(ls[at + i]);
    if line == "end"@ {
        if depth - 1 == 0 {
            StepModel::Done(e, i + 1)
        } else {
            StepModel::Next(i + 1, depth - 1, e)
        }
    } else if depth == 1 {
        if starts_with(line, "command"@) || shorthand_command(line) {
            match command_block(ls, at + i) {
                Some((c, n)) => StepModel::Next(i + n, depth, EntityModel { commands: e.commands.push(c), ..e }),
                None => StepModel::Fail,
            }
        } else if starts_with(line, "query"@) {
            if opens_do_block(line) {
                let (q, n) = query_block(ls, at + i);
                StepModel::Next(i + n, depth, EntityModel { queries: e.queries.push(q), ..e })
            } else {
                StepModel::Next(i + 1, depth, EntityModel { queries: e.queries.push(simple_query(line)), ..e })
            }
        } else if starts_with(line, "lifecycle"@) {
            let (lc, n) = lifecycle_block(ls, at + i);
            StepModel::Next(i + n, depth, EntityModel { lifecycle: Some(lc), ..e })
        } else if starts_with(line, "identified_by"@) {
            StepModel::Next(i + 1, depth, EntityModel { identified_by: symbol_of(line), ..e })
        } else if starts_with(line, "description"@) {
            StepModel::Next(i + 1, depth, EntityModel { description: string_literal(line), ..e })
        } else if starts_with(line, "attribute"@) {
            let e2 = match attribute_of(line) {
                Some(a) => EntityModel { attributes: e.attributes.push(a), ..e },
                None => e,
            };
            if opens_do_block(line) {
                let (lc, n) = lifecycle_block(ls, at + i);
                StepModel::Next(
                    i + n,
                    depth,
                    if lc.transitions.len() > 0 { EntityModel { lifecycle: Some(lc), ..e2 } } else { e2 },
                )
            } else {
                StepModel::Next(i + 1, depth, e2)
            }
        } else if shorthand_line(line) && !starts_with(line, "reference_to("@) {
            StepModel::Next(
                i + 1,
                depth,
                match shorthand_attribute(line) {
                    Some(a) => EntityModel { attributes: e.attributes.push(a), ..e },
                    None => e,
                },
            )
        } else if starts_with(line, "rule "@) || starts_with(line, "rule\t"@) {
            match rule_block(ls, at + i) {
                None => StepModel::Fail,
                Some(n) => StepModel::Next(i + n, depth, e),
            }
        } else if opens_do_block(line) {
            StepModel::Next(i + 1, depth + 1, e)
        } else {
            StepModel::Next(i + 1, depth, e)
        }
    } else if opens_do_block(line) {
        StepModel::Next(i + 1, depth + 1, e)
    } else {
        StepModel::Next(i + 1, depth, e)
    }
}

pub proof fn lemma_entity_next(ls: Seq<Seq<char>>, at: int, i: int, depth: int, e: EntityModel)
    requires
        0 <= at,
        0 <= i,
        at + i < ls.len(),
        depth > 0,
    ensures
        entity_next(ls, at, i, depth, e) matches StepModel::Next(i2, d2, _) ==> i < i2 <= ls.len() + 1 - at && 0
            <= d2 <= depth + 1,
{
    lemma_rule_block(ls, at + i);
    lemma_command_block(ls, at + i);
    lemma_query_block(ls, at + i);
    lemma_lifecycle_block(ls, at + i);
}

/// Walks an entity's body: the model and lines consumed, or `None` when a
/// nested rule's `requires` body holds more than one statement.
pub open spec fn entity_walk(ls: Seq<Seq<char>>, at: int, i: int, depth: int, e: EntityModel) -> Option<(EntityModel, int)>
    decreases ls.len() + 1 - (at + i),
{
    if at < 0 || i < 0 || at + i >= ls.len() || depth <= 0 {
        Some((e, i + 1))
    } else {
        proof { lemma_entity_next(ls, at, i, depth, e); }
        match entity_next(ls, at, i, depth, e) {
            StepModel::Done(v, n) => Some((v, n)),
            StepModel::Fail => None,
            StepModel::Next(i2, d2, v2) => entity_walk(ls, at, i2, d2, v2),
        }
    }
}

/// `parse_entity`'s result for the block opening at `ls[at]`.
pub open spec fn entity_block(ls: Seq<Seq<char>>, at: int) -> Option<(EntityModel, int)> {
    entity_walk(
        ls,
        at,
        1,
        1,
        EntityModel {
            name: or_default(string_literal(trim(ls[at])), Seq::empty()),
            description: None,
            attributes: Seq::empty(),
            commands: Seq::empty(),
            queries: Seq::empty(),
            lifecycle: None,
            identified_by: None,
        },
    )
}

fn query_name_of(line: &Vec<char>) -> (r: Vec<char>)
    ensures
        r@ == query_name(line@),
{
    match extract_string_chars(line) {
        Some(n) => n,
        None => {
            let w = words_exec(line);
            if w.len() > 1 {
                strip_both_exec(&w[1], &Stop::Other('"'))
            } else {
                Vec::new()
            }
        },
    }
}

/// A one-line query with only its name and description.
pub fn simple_query_exec(line: &Vec<char>) -> (r: Query)
    ensures
        r@ == simple_query(line@),
{
    let name = query_name_of(line);
    let q = Query {
        name: string_of(&name),
        description: opt_string(&extract_second_string_chars(line)),
        attributes: Vec::new(),
        wheres: Vec::new(),
        order_by: None,
        limit: None,
        reduction: None,
        group_by: None,
        scope_to: None,
    };
    assert(q@ =~= simple_query(line@));
    q
}

fn entity_step_exec(lines: &Vec<Vec<char>>, at: usize, i: usize, depth: usize, e0: Entity) -> (r: Step<Entity>)
    requires
        at + i < lines.len() < usize::MAX,
        0 < depth <= i,
    ensures
        r@ == entity_next(views(lines@), at as int, i as int, depth as int, e0@),
{
    let ghost ls = views(lines@);
    proof { lemma_entity_next(ls, at as int, i as int, depth as int, e0@); }
    let mut e = e0;
    assert(ls[at + i] == lines@[at + i]@);
    let line = trim_exec(&lines[at + i]);
    if eq_str(&line, "end") {
        if depth - 1 == 0 {
            return Step::Done(e, i + 1);
        }
        return Step::Next(i + 1, depth - 1, e);
    }
    if depth != 1 {
        if ends_with_do_block_chars(&line) {
            return Step::Next(i + 1, depth + 1, e);
        }
        return Step::Next(i + 1, depth, e);
    }
    if starts_with_str(&line, "command") || is_shorthand_command_chars(&line) {
        match parse_command_chars(lines, at + i) {
            Some((c, n)) => {
                e.commands.push(c);
                Step::Next(i + n, depth, e)
            },
            None => Step::Fail,
        }
    } else if starts_with_str(&line, "query") {
        if ends_with_do_block_chars(&line) {
            let (q, n) = parse_query_chars(lines, at + i);
            e.queries.push(q);
            Step::Next(i + n, depth, e)
        } else {
            e.queries.push(simple_query_exec(&line));
            Step::Next(i + 1, depth, e)
        }
    } else if starts_with_str(&line, "lifecycle") {
        let (lc, n) = parse_lifecycle_chars(lines, at + i);
        e.lifecycle = Some(lc);
        Step::Next(i + n, depth, e)
    } else if starts_with_str(&line, "identified_by") {
        e.identified_by = opt_string(&extract_symbol_chars(&line));
        Step::Next(i + 1, depth, e)
    } else if starts_with_str(&line, "description") {
        e.description = opt_string(&extract_string_chars(&line));
        Step::Next(i + 1, depth, e)
    } else if starts_with_str(&line, "attribute") {
        match parse_attribute_chars(&line) {
            Some(a) => {
                e.attributes.push(a);
            },
            None => {},
        }
        if ends_with_do_block_chars(&line) {
            let (lc, n) = parse_lifecycle_chars(lines, at + i);
            if lc.transitions.len() > 0 {
                e.lifecycle = Some(lc);
            }
            Step::Next(i + n, depth, e)
        } else {
            Step::Next(i + 1, depth, e)
        }
    } else if is_shorthand_line_chars(&line) && !starts_with_str(&line, "reference_to(") {
        match parse_shorthand_attribute_chars(&line) {
            Some(a) => {
                e.attributes.push(a);
            },
            None => {},
        }
        Step::Next(i + 1, depth, e)
    } else if starts_with_str(&line, "rule ") || starts_with_str(&line, "rule\t") {
        match rule_block_exec(lines, at + i) {
            None => Step::Fail,
            Some(n) => Step::Next(i + n, depth, e),
        }
    } else if ends_with_do_block_chars(&line) {
        Step::Next(i + 1, depth + 1, e)
    } else {
        Step::Next(i + 1, depth, e)
    }
}

pub fn parse_entity_chars(lines: &Vec<Vec<char>>, at: usize) -> (r: Option<(Entity, usize)>)
    requires
        at < lines.len() < usize::MAX - 1,
    ensures
        match r {
            Some((e, n)) => entity_block(views(lines@), at as int) == Some((e@, n as int)),
            None => entity_block(views(lines@), at as int) is None,
        },
        r matches Some((_, n)) ==> 2 <= n <= lines.len() + 2 - at,
{
    let ghost ls = views(lines@);
    let first = trim_exec(&lines[at]);
    assert(ls[at as int] == lines@[at as int]@);
    let name = match extract_string_chars(&first) {
        Some(n) => n,
        None => Vec::new(),
    };
    let mut e = Entity {
        name: string_of(&name),
        description: None,
        attributes: Vec::new(),
        commands: Vec::new(),
        queries: Vec::new(),
        lifecycle: None,
        identified_by: None,
    };
    let mut i: usize = 1;
    let mut depth: usize = 1;
    while i < lines.len() - at && depth > 0
        invariant
            at < lines.len() < usize::MAX - 1,
            ls == views(lines@),
            1 <= i <= lines.len() + 1 - at,
            depth <= i,
            entity_walk(ls, at as int, i as int, depth as int, e@) == entity_block(ls, at as int),
        decreases lines.len() + 1 - at - i,
    {
        proof { lemma_entity_next(ls, at as int, i as int, depth as int, e@); }
        match entity_step_exec(lines, at, i, depth, e) {
            Step::Done(v, n) => {
                return Some((v, n));
            },
            Step::Fail => {
                return None;
            },
            Step::Next(i2, d2, v2) => {
                i = i2;
                depth = d2;
                e = v2;
            },
        }
    }
    Some((e, i + 1))
}

/// Parse an `entity "Name" do ... end` block owned by an aggregate: its
/// attributes, commands, queries, lifecycle and identity; nested `rule`
/// blocks are consumed whole. Returns the entity and the lines consumed.
pub fn parse_entity(lines: &[&str]) -> (r: (Entity, usize))
    requires
        0 < lines.len() < usize::MAX - 1,
        entity_block(strs_view(lines@), 0) is Some,
    ensures
        entity_block(strs_view(lines@), 0) == Some((r.0@, r.1 as int)),
{
    let ls = lines_of(lines);
    match parse_entity_chars(&ls, 0) {
        Some(r) => r,
        None => (
            Entity {
                name: String::new(),
                description: None,
                attributes: Vec::new(),
                commands: Vec::new(),
                queries: Vec::new(),
                lifecycle: None,
                identified_by: None,
            },
            0,
        ),
    }
}


pub proof fn lemma_entity_walk(ls: Seq<Seq<char>>, at: int, i: int, depth: int, e: EntityModel)
    requires
        0 <= at,
        0 <= i,
    ensures
        entity_walk(ls, at, i, depth, e) matches Some((_, n)) ==> n >= i + 1,
    decreases ls.len() + 1 - (at + i),
{
    if at + i < ls.len() && depth > 0 {
        lemma_entity_next(ls, at, i, depth, e);
        match entity_next(ls, at, i, depth, e) {
            StepModel::Next(i2, d2, v2) => lemma_entity_walk(ls, at, i2, d2, v2),
            _ => {},
        }
    }
}

/// An entity block that parses takes at least two lines' worth.
pub proof fn lemma_entity_block(ls: Seq<Seq<char>>, at: int)
    requires
        0 <= at < ls.len(),
    ensures
        entity_block(ls, at) matches Some((_, n)) ==> n >= 2,
{
    lemma_entity_walk(
        ls,
        at,
        1,
        1,
        EntityModel {
            name: or_default(string_literal(trim(ls[at])), Seq::empty()),
            description: None,
            attributes: Seq::empty(),
            commands: Seq::empty(),
            queries: Seq::empty(),
            lifecycle: None,
            identified_by: None,
        },
    );
}

} // verus!

//! Aggregate blocks: the root, its attributes, relationships, commands,
//! queries, value objects, entities, lifecycle, invariants and views.

use vstd::prelude::*;
use crate::text::{chars_of, ends_with, ends_with_str, eq, eq_str, find_seq, find_str, lines_of, opt_string, rfind_seq, rfind_str, slice, starts_with, starts_with_str, string_of, strs_view, tail, trim, trim_exec, views};
use crate::ir::{Aggregate, AggregateModel, Attribute, AttributeModel, Cardinality, Domain, Reference, ReferenceKind, Step, StepModel, group_views, opt_view, reference_model, seq_view};
use crate::helpers::{ShorthandModel, ShorthandResult, ends_with_do_block_chars, extract_second_string_chars, extract_string_chars, extract_symbol_chars, extract_word_after_chars, is_shorthand_command_chars, is_shorthand_line_chars, opens_do_block, or_default, parse_shorthand_chars, parse_shorthand_reference_chars, second_literal, shorthand, shorthand_command, shorthand_line, shorthand_reference, snake, string_literal, symbol_of, to_snake_case_chars, word_after};
use crate::blocks::attribute::{attribute_of, lemma_lifecycle_block, lifecycle_block, parse_attribute_chars, parse_lifecycle_chars};
use crate::blocks::command::{command_block, command_reference, lemma_command_block, parse_command_chars};
use crate::blocks::entity::{entity_block, lemma_entity_block, parse_entity_chars, simple_query, simple_query_exec};
use crate::blocks::query::{attribute_names, lemma_query_block, parse_query_chars, query_block};
use crate::blocks::rule::{lemma_rule_block, rule_block, rule_block_exec};
use crate::blocks::value_object::{lemma_value_object_block, parse_value_object_chars, value_object_block};
use crate::blocks::view::{invariant_block, lemma_view_invariant_blocks, parse_invariant_chars, parse_view_chars, view_block};

verus! {

broadcast use crate::ir::group_views;

proof fn lemma_keyword_lens()
    ensures
        ", as:"@.len() == 5,
        "::"@.len() == 2,
        ", role:"@.len() == 7,
        "ies"@.len() == 3,
{
    reveal_strlit(", as:");
    reveal_strlit("::");
    reveal_strlit(", role:");
    reveal_strlit("ies");
}

// ---------------------------------------------------------------------
// Relationships
// ---------------------------------------------------------------------

/// English singular of a plural type name: `ies` becomes `y`, a trailing
/// `s` is dropped, anything else is kept.
pub open spec fn singular(p: Seq<char>) -> Seq<char> {
    if p.len() > 3 && ends_with(p, "ies"@) {
        p.subrange(0, p.len() - 3) + seq!['y']
    } else if p.len() > 1 && p.last() == 's' {
        p.drop_last()
    } else {
        p
    }
}

fn singularize(p: &Vec<char>) -> (r: Vec<char>)
    ensures
        r@ == singular(p@),
{
    proof { lemma_keyword_lens(); }
    if p.len() > 3 && ends_with_str(p, "ies") {
        let mut r = slice(p, 0, p.len() - 3);
        r.push('y');
        r
    } else if p.len() > 1 && p[p.len() - 1] == 's' {
        slice(p, 0, p.len() - 1)
    } else {
        p.clone()
    }
}

/// `Domain::Sub::Type` split at its last `::` into the qualifying prefix
/// and the type.
pub open spec fn qualified_type(token: Seq<char>) -> (Option<Seq<char>>, Seq<char>) {
    match rfind_seq(token, "::"@) {
        Some(k) => (Some(token.subrange(0, k)), token.subrange(k + 2, token.len() as int)),
        None => (None, token),
    }
}

fn split_qualified_type(token: &Vec<char>) -> (r: (Option<Vec<char>>, Vec<char>))
    ensures
        (opt_view(r.0), r.1@) == qualified_type(token@),
{
    proof { lemma_keyword_lens(); }
    match rfind_str(token, "::") {
        Some(k) => (Some(slice(token, 0, k)), tail(token, k + 2)),
        None => (None, token.clone()),
    }
}

/// The `, as: :alias` override of a relationship line.
pub open spec fn as_alias(line: Seq<char>) -> Option<Seq<char>> {
    match find_seq(line, ", as:"@) {
        Some(p) => symbol_of(line.subrange(p + 5, line.len() as int)),
        None => None,
    }
}

fn parse_as_alias(line: &Vec<char>) -> (r: Option<Vec<char>>)
    ensures
        opt_view(r) == as_alias(line@),
{
    proof { lemma_keyword_lens(); }
    match find_str(line, ", as:") {
        Some(p) => {
            let rest = tail(line, p + 5);
            extract_symbol_chars(&rest)
        },
        None => None,
    }
}

/// The stored foreign-key attribute a single relationship implies.
pub open spec fn key_attribute(name: Seq<char>, target: Seq<char>) -> AttributeModel {
    AttributeModel {
        name,
        attr_type: target,
        default: None,
        list: false,
        required: false,
        enum_values: Seq::empty(),
        pattern: None,
        hint: None,
        logged: true,
    }
}

/// The aggregate after a `has_one` / `belongs_to` line of the given kind:
/// the reference, and a key attribute unless one of that name exists.
pub open spec fn with_single(line: Seq<char>, keyword: Seq<char>, kind: ReferenceKind, a: AggregateModel) -> AggregateModel {
    match word_after(line, keyword) {
        None => a,
        Some(token) => {
            let (domain, target) = qualified_type(token);
            let name = or_default(as_alias(line), snake(target));
            let a2 = AggregateModel {
                references: a.references.push(reference_model(name, target, domain, Cardinality::Single, kind)),
                ..a
            };
            if attribute_names(a2.attributes).contains(name) {
                a2
            } else {
                AggregateModel { attributes: a2.attributes.push(key_attribute(name, target)), ..a2 }
            }
        },
    }
}

/// The aggregate after a `has_many Xs[, as: :alias]` line: a collection of
/// the singular type.
pub open spec fn with_many(line: Seq<char>, a: AggregateModel) -> AggregateModel {
    match word_after(line, "has_many"@) {
        None => a,
        Some(token) => {
            let (domain, plural) = qualified_type(token);
            let name = or_default(as_alias(line), snake(plural));
            AggregateModel {
                references: a.references.push(
                    reference_model(name, singular(plural), domain, Cardinality::Many, ReferenceKind::HasMany),
                ),
                ..a
            }
        },
    }
}

/// The aggregate after a `reference_to` line (call or word form).
pub open spec fn with_reference_to(line: Seq<char>, a: AggregateModel) -> AggregateModel {
    if starts_with(line, "reference_to("@) {
        match shorthand_reference(line) {
            Some(r) => AggregateModel { references: a.references.push(r), ..a },
            None => a,
        }
    } else {
        match word_after(line, "reference_to"@) {
            Some(t) => AggregateModel { references: a.references.push(command_reference(line, t)), ..a },
            None => a,
        }
    }
}

/// The aggregate after a shorthand attribute or reference line.
pub open spec fn with_agg_shorthand(line: Seq<char>, a: AggregateModel) -> AggregateModel {
    match shorthand(line) {
        ShorthandModel::Attribute(x) => AggregateModel { attributes: a.attributes.push(x), ..a },
        ShorthandModel::Reference(r) => AggregateModel { references: a.references.push(r), ..a },
        ShorthandModel::Nothing => a,
    }
}


// ---------------------------------------------------------------------
// The aggregate block
// ---------------------------------------------------------------------

/// One step of an aggregate's body at line `at + i`, depth `depth`.
pub open spec fn aggregate_next(ls: Seq<Seq<char>>, at: int, i: int, depth: int, a: AggregateModel) -> StepModel<AggregateModel> {
    let line = trim(ls[at + i]);
    if line == "end"@ {
        if depth - 1 == 0 {
            StepModel::Done(a, i + 1)
        } else {
            StepModel::Next(i + 1, depth - 1, a)
        }
    } else if depth != 1 {
        StepModel::Next(i + 1, if opens_do_block(line) { depth + 1 } else { depth }, a)
    } else if starts_with(line, "command"@) || shorthand_command(line) {
        match command_block(ls, at + i) {
            Some((c, n)) => StepModel::Next(i + n, depth, AggregateModel { commands: a.commands.push(c), ..a }),
            None => StepModel::Fail,
        }
    } else if starts_with(line, "value_object"@) {
        match value_object_block(ls, at + i) {
            Some((vo, n)) => StepModel::Next(i + n, depth, AggregateModel { value_objects: a.value_objects.push(vo), ..a }),
            None => StepModel::Fail,
        }
    } else if starts_with(line, "entity"@) {
        match entity_block(ls, at + i) {
            Some((e, n)) => StepModel::Next(i + n, depth, AggregateModel { entities: a.entities.push(e), ..a }),
            None => StepModel::Fail,
        }
    } else if starts_with(line, "attribute"@) {
        let a2 = match attribute_of(line) {
            Some(x) => AggregateModel { attributes: a.attributes.push(x), ..a },
            None => a,
        };
        if opens_do_block(line) {
            let (lc, n) = lifecycle_block(ls, at + i);
            StepModel::Next(
                i + n,
                depth,
                if lc.transitions.len() > 0 { AggregateModel { lifecycle: Some(lc), ..a2 } } else { a2 },
            )
        } else {
            StepModel::Next(i + 1, depth, a2)
        }
    } else if starts_with(line, "description"@) {
        StepModel::Next(i + 1, depth, AggregateModel { description: string_literal(line), ..a })
    } else if starts_with(line, "reference_to"@) {
        StepModel::Next(i + 1, depth, with_reference_to(line, a))
    } else if starts_with(line, "has_many"@) {
        StepModel::Next(i + 1, depth, with_many(line, a))
    } else if starts_with(line, "has_one"@) {
        StepModel::Next(i + 1, depth, with_single(line, "has_one"@, ReferenceKind::HasOne, a))
    } else if starts_with(line, "belongs_to"@) {
        StepModel::Next(i + 1, depth, with_single(line, "belongs_to"@, ReferenceKind::BelongsTo, a))
    } else if starts_with(line, "lifecycle"@) {
        let (lc, n) = lifecycle_block(ls, at + i);
        StepModel::Next(i + n, depth, AggregateModel { lifecycle: Some(lc), ..a })
    } else if starts_with(line, "invariant"@) {
        match invariant_block(ls, at + i) {
            Some((inv, n)) => StepModel::Next(
                i + n,
                depth,
                match inv {
                    Some(x) => AggregateModel { invariants: a.invariants.push(x), ..a },
                    None => a,
                },
            ),
            None => StepModel::Fail,
        }
    } else if starts_with(line, "identified_by"@) {
        StepModel::Next(i + 1, depth, AggregateModel { identified_by: symbol_of(line), ..a })
    } else if starts_with(line, "view"@) && opens_do_block(line) {
        let (v, n) = view_block(ls, at + i);
        StepModel::Next(i + n, depth, AggregateModel { views: a.views.push(v), ..a })
    } else if shorthand_line(line) {
        StepModel::Next(i + 1, depth, with_agg_shorthand(line, a))
    } else if starts_with(line, "query"@) {
        if opens_do_block(line) {
            let (q, n) = query_block(ls, at + i);
            StepModel::Next(i + n, depth, AggregateModel { queries: a.queries.push(q), ..a })
        } else {
            StepModel::Next(i + 1, depth, AggregateModel { queries: a.queries.push(simple_query(line)), ..a })
        }
    } else if starts_with(line, "rule "@) || starts_with(line, "rule\t"@) {
        match rule_block(ls, at + i) {
            None => StepModel::Fail,
            Some(n) => StepModel::Next(i + n, depth, a),
        }
    } else if opens_do_block(line) {
        StepModel::Next(i + 1, depth + 1, a)
    } else {
        StepModel::Next(i + 1, depth, a)
    }
}

pub proof fn lemma_aggregate_next(ls: Seq<Seq<char>>, at: int, i: int, depth: int, a: AggregateModel)
    requires
        0 <= at,
        0 <= i,
        at + i < ls.len(),
        depth > 0,
    ensures
        aggregate_next(ls, at, i, depth, a) matches StepModel::Next(i2, d2, _) ==> i < i2 && 0 <= d2 <= depth + 1,
{
    lemma_command_block(ls, at + i);
    lemma_value_object_block(ls, at + i);
    lemma_entity_block(ls, at + i);
    lemma_lifecycle_block(ls, at + i);
    lemma_view_invariant_blocks(ls, at + i);
    lemma_query_block(ls, at + i);
    lemma_rule_block(ls, at + i);
}

/// Lines left from `at + i` (none once past the end).
pub open spec fn lines_left(ls: Seq<Seq<char>>, at: int, i: int) -> int {
    if at + i < ls.len() {
        ls.len() - (at + i)
    } else {
        0
    }
}

/// Walks an aggregate's body: the model and lines consumed, or `None`
/// where a nested block fails.
pub open spec fn aggregate_walk(ls: Seq<Seq<char>>, at: int, i: int, depth: int, a: AggregateModel) -> Option<(AggregateModel, int)>
    decreases lines_left(ls, at, i),
{
    if at < 0 || i < 0 || at + i >= ls.len() || depth <= 0 {
        Some((a, i + 1))
    } else {
        proof { lemma_aggregate_next(ls, at, i, depth, a); }
        match aggregate_next(ls, at, i, depth, a) {
            StepModel::Done(v, n) => Some((v, n)),
            StepModel::Fail => None,
            StepModel::Next(i2, d2, v2) => aggregate_walk(ls, at, i2, d2, v2),
        }
    }
}

/// An aggregate with only its name and description.
pub open spec fn bare_aggregate(first: Seq<char>) -> AggregateModel {
    AggregateModel {
        name: or_default(string_literal(first), Seq::empty()),
        description: second_literal(first),
        context: None,
        category: None,
        attributes: Seq::empty(),
        commands: Seq::empty(),
        queries: Seq::empty(),
        value_objects: Seq::empty(),
        entities: Seq::empty(),
        references: Seq::empty(),
        lifecycle: None,
        identified_by: None,
        invariants: Seq::empty(),
        views: Seq::empty(),
    }
}

/// `parse_aggregate`'s result for the block opening at `ls[at]`.
pub open spec fn aggregate_block(ls: Seq<Seq<char>>, at: int) -> Option<(AggregateModel, int)> {
    aggregate_walk(ls, at, 1, 1, bare_aggregate(trim(ls[at])))
}

pub proof fn lemma_aggregate_walk(ls: Seq<Seq<char>>, at: int, i: int, depth: int, a: AggregateModel)
    requires
        0 <= at,
        0 <= i,
    ensures
        aggregate_walk(ls, at, i, depth, a) matches Some((_, n)) ==> n >= i + 1,
    decreases lines_left(ls, at, i),
{
    if at + i < ls.len() && depth > 0 {
        lemma_aggregate_next(ls, at, i, depth, a);
        match aggregate_next(ls, at, i, depth, a) {
            StepModel::Next(i2, d2, v2) => lemma_aggregate_walk(ls, at, i2, d2, v2),
            _ => {},
        }
    }
}

/// An aggregate block that parses takes at least two lines' worth.
pub proof fn lemma_aggregate_block(ls: Seq<Seq<char>>, at: int)
    requires
        0 <= at < ls.len(),
    ensures
        aggregate_block(ls, at) matches Some((_, n)) ==> n >= 2,
{
    lemma_aggregate_walk(ls, at, 1, 1, bare_aggregate(trim(ls[at])));
}


fn has_attribute_named(attrs: &Vec<Attribute>, name: &Vec<char>) -> (r: bool)
    ensures
        r == attribute_names(seq_view(attrs@)).contains(name@),
{
    let ghost all = attribute_names(seq_view(attrs@));
    let mut j: usize = 0;
    while j < attrs.len()
        invariant
            j <= attrs.len(),
            all == attribute_names(seq_view(attrs@)),
            forall|k: int| 0 <= k < j ==> all[k] != name@,
        decreases attrs.len() - j,
    {
        let n = chars_of(attrs[j].name.as_str());
        assert(seq_view(attrs@)[j as int] == attrs@[j as int]@);
        if eq(&n, name) {
            assert(all[j as int] == name@);
            return true;
        }
        j = j + 1;
    }
    proof {
        if all.contains(name@) {
            let k = choose|k: int| 0 <= k < all.len() && all[k] == name@;
            assert(all[k] != name@);
        }
    }
    false
}

fn with_single_exec(line: &Vec<char>, keyword: &str, kind: ReferenceKind, a: &mut Aggregate)
    ensures
        final(a)@ == with_single(line@, keyword@, kind, old(a)@),
{
    let kw = chars_of(keyword);
    let token = match extract_word_after_chars(line, &kw) {
        None => return,
        Some(t) => t,
    };
    let (domain, target) = split_qualified_type(&token);
    let name = match parse_as_alias(line) {
        Some(n) => n,
        None => to_snake_case_chars(&target),
    };
    a.references.push(
        Reference { name: string_of(&name), target: string_of(&target), domain: opt_string(&domain), cardinality: Cardinality::Single, kind },
    );
    if !has_attribute_named(&a.attributes, &name) {
        a.attributes.push(
            Attribute {
                name: string_of(&name),
                attr_type: string_of(&target),
                default: None,
                list: false,
                required: false,
                enum_values: Vec::new(),
                pattern: None,
                hint: None,
                logged: true,
            },
        );
    }
}

fn absorb_has_many(line: &Vec<char>, a: &mut Aggregate)
    ensures
        final(a)@ == with_many(line@, old(a)@),
{
    let kw = chars_of("has_many");
    let token = match extract_word_after_chars(line, &kw) {
        None => return,
        Some(t) => t,
    };
    let (domain, plural) = split_qualified_type(&token);
    let name = match parse_as_alias(line) {
        Some(n) => n,
        None => to_snake_case_chars(&plural),
    };
    let target = singularize(&plural);
    a.references.push(Reference::many(string_of(&name), string_of(&target), opt_string(&domain)));
}

fn absorb_reference_to(line: &Vec<char>, a: &mut Aggregate)
    ensures
        final(a)@ == with_reference_to(line@, old(a)@),
{
    proof { lemma_keyword_lens(); }
    if starts_with_str(line, "reference_to(") {
        match parse_shorthand_reference_chars(line) {
            Some(r) => {
                a.references.push(r);
            },
            None => {},
        }
    } else {
        let kw = chars_of("reference_to");
        match extract_word_after_chars(line, &kw) {
            Some(t) => {
                let dflt = to_snake_case_chars(&t);
                let name = match find_str(line, ", as:") {
                    Some(p) => {
                        let rest = tail(line, p + 5);
                        match extract_symbol_chars(&rest) {
                            Some(n) => n,
                            None => dflt,
                        }
                    },
                    None => match find_str(line, ", role:") {
                        Some(p) => {
                            let rest = tail(line, p + 7);
                            match extract_symbol_chars(&rest) {
                                Some(n) => n,
                                None => dflt,
                            }
                        },
                        None => dflt,
                    },
                };
                a.references.push(Reference::single(string_of(&name), string_of(&t), None));
            },
            None => {},
        }
    }
}

fn absorb_shorthand(line: &Vec<char>, a: &mut Aggregate)
    ensures
        final(a)@ == with_agg_shorthand(line@, old(a)@),
{
    match parse_shorthand_chars(line) {
        ShorthandResult::Attribute(x) => {
            a.attributes.push(x);
        },
        ShorthandResult::Reference(r) => {
            a.references.push(r);
        },
        ShorthandResult::Neither => {},
    }
}

#[verifier::rlimit(30)]
fn aggregate_step_exec(lines: &Vec<Vec<char>>, at: usize, i: usize, depth: usize, a0: Aggregate) -> (r: Step<Aggregate>)
    requires
        at + i < lines.len() < usize::MAX - 3,
        0 < depth <= i,
    ensures
        r@ == aggregate_next(views(lines@), at as int, i as int, depth as int, a0@),
        r matches Step::Next(i2, d2, _) ==> i2 <= lines.len() + 2 - at,
{
    let ghost ls = views(lines@);
    proof { lemma_aggregate_next(ls, at as int, i as int, depth as int, a0@); }
    let mut a = a0;
    assert(ls[at + i] == lines@[at + i]@);
    let line = trim_exec(&lines[at + i]);
    if eq_str(&line, "end") {
        if depth - 1 == 0 {
            return Step::Done(a, i + 1);
        }
        return Step::Next(i + 1, depth - 1, a);
    }
    if depth != 1 {
        if ends_with_do_block_chars(&line) {
            return Step::Next(i + 1, depth + 1, a);
        }
        return Step::Next(i + 1, depth, a);
    }
    if starts_with_str(&line, "command") || is_shorthand_command_chars(&line) {
        match parse_command_chars(lines, at + i) {
            Some((c, n)) => {
                a.commands.push(c);
                Step::Next(i + n, depth, a)
            },
            None => Step::Fail,
        }
    } else if starts_with_str(&line, "value_object") {
        match parse_value_object_chars(lines, at + i) {
            Some((vo, n)) => {
                a.value_objects.push(vo);
                Step::Next(i + n, depth, a)
            },
            None => Step::Fail,
        }
    } else if starts_with_str(&line, "entity") {
        match parse_entity_chars(lines, at + i) {
            Some((e, n)) => {
                a.entities.push(e);
                Step::Next(i + n, depth, a)
            },
            None => Step::Fail,
        }
    } else if starts_with_str(&line, "attribute") {
        match parse_attribute_chars(&line) {
            Some(x) => {
                a.attributes.push(x);
            },
            None => {},
        }
        if ends_with_do_block_chars(&line) {
            let (lc, n) = parse_lifecycle_chars(lines, at + i);
            if lc.transitions.len() > 0 {
                a.lifecycle = Some(lc);
            }
            Step::Next(i + n, depth, a)
        } else {
            Step::Next(i + 1, depth, a)
        }
    } else if starts_with_str(&line, "description") {
        a.description = opt_string(&extract_string_chars(&line));
        Step::Next(i + 1, depth, a)
    } else if starts_with_str(&line, "reference_to") {
        absorb_reference_to(&line, &mut a);
        Step::Next(i + 1, depth, a)
    } else if starts_with_str(&line, "has_many") {
        absorb_has_many(&line, &mut a);
        Step::Next(i + 1, depth, a)
    } else if starts_with_str(&line, "has_one") {
        with_single_exec(&line, "has_one", ReferenceKind::HasOne, &mut a);
        Step::Next(i + 1, depth, a)
    } else if starts_with_str(&line, "belongs_to") {
        with_single_exec(&line, "belongs_to", ReferenceKind::BelongsTo, &mut a);
        Step::Next(i + 1, depth, a)
    } else if starts_with_str(&line, "lifecycle") {
        let (lc, n) = parse_lifecycle_chars(lines, at + i);
        a.lifecycle = Some(lc);
        Step::Next(i + n, depth, a)
    } else if starts_with_str(&line, "invariant") {
        match parse_invariant_chars(lines, at + i) {
            Some((inv, n)) => {
                match inv {
                    Some(x) => {
                        a.invariants.push(x);
                    },
                    None => {},
                }
                Step::Next(i + n, depth, a)
            },
            None => Step::Fail,
        }
    } else if starts_with_str(&line, "identified_by") {
        a.identified_by = opt_string(&extract_symbol_chars(&line));
        Step::Next(i + 1, depth, a)
    } else if starts_with_str(&line, "view") && ends_with_do_block_chars(&line) {
        let (v, n) = parse_view_chars(lines, at + i);
        a.views.push(v);
        Step::Next(i + n, depth, a)
    } else if is_shorthand_line_chars(&line) {
        absorb_shorthand(&line, &mut a);
        Step::Next(i + 1, depth, a)
    } else if starts_with_str(&line, "query") {
        if ends_with_do_block_chars(&line) {
            let (q, n) = parse_query_chars(lines, at + i);
            a.queries.push(q);
            Step::Next(i + n, depth, a)
        } else {
            a.queries.push(simple_query_exec(&line));
            Step::Next(i + 1, depth, a)
        }
    } else if starts_with_str(&line, "rule ") || starts_with_str(&line, "rule\t") {
        match rule_block_exec(lines, at + i) {
            None => Step::Fail,
            Some(n) => Step::Next(i + n, depth, a),
        }
    } else if ends_with_do_block_chars(&line) {
        Step::Next(i + 1, depth + 1, a)
    } else {
        Step::Next(i + 1, depth, a)
    }
}

#[verifier::rlimit(40)]
pub fn parse_aggregate_chars(lines: &Vec<Vec<char>>, at: usize) -> (r: Option<(Aggregate, usize)>)
    requires
        at < lines.len() < usize::MAX - 3,
    ensures
        match r {
            Some((a, n)) => aggregate_block(views(lines@), at as int) == Some((a@, n as int)),
            None => aggregate_block(views(lines@), at as int) is None,
        },
        r matches Some((_, n)) ==> 2 <= n <= lines.len() + 3 - at,
{
    let ghost ls = views(lines@);
    let first = trim_exec(&lines[at]);
    assert(ls[at as int] == lines@[at as int]@);
    let name = match extract_string_chars(&first) {
        Some(n) => n,
        None => Vec::new(),
    };
    let mut a = Aggregate {
        name: string_of(&name),
        description: opt_string(&extract_second_string_chars(&first)),
        context: None,
        category: None,
        attributes: Vec::new(),
        commands: Vec::new(),
        queries: Vec::new(),
        value_objects: Vec::new(),
        entities: Vec::new(),
        references: Vec::new(),
        lifecycle: None,
        identified_by: None,
        invariants: Vec::new(),
        views: Vec::new(),
    };
    assert(a@ =~= bare_aggregate(first@));
    let mut i: usize = 1;
    let mut depth: usize = 1;
    while i < lines.len() - at && depth > 0
        invariant
            at < lines.len() < usize::MAX - 3,
            ls == views(lines@),
            1 <= i <= lines.len() + 2 - at,
            depth <= i,
            aggregate_walk(ls, at as int, i as int, depth as int, a@) == aggregate_block(ls, at as int),
        decreases lines.len() + 2 - at - i,
    {
        proof { lemma_aggregate_next(ls, at as int, i as int, depth as int, a@); }
        match aggregate_step_exec(lines, at, i, depth, a) {
            Step::Done(v, n) => {
                return Some((v, n));
            },
            Step::Fail => {
                return None;
            },
            Step::Next(i2, d2, v2) => {
                i = i2;
                depth = d2;
                a = v2;
            },
        }
    }
    Some((a, i + 1))
}

/// Parse an `aggregate "Name"[, "description"] do ... end` block: its
/// attributes, relationships, commands, queries, value objects, entities,
/// lifecycle, invariants and views. Returns the aggregate and the lines
/// consumed; a nested block that fails takes it outside its domain.
pub fn parse_aggregate(lines: &[&str]) -> (r: (Aggregate, usize))
    requires
        0 < lines.len() < usize::MAX - 3,
        aggregate_block(strs_view(lines@), 0) is Some,
    ensures
        aggregate_block(strs_view(lines@), 0) == Some((r.0@, r.1 as int)),
{
    let ls = lines_of(lines);
    match parse_aggregate_chars(&ls, 0) {
        Some(r) => r,
        None => {
            (
                Aggregate {
                    name: String::new(),
                    description: None,
                    context: None,
                    category: None,
                    attributes: Vec::new(),
                    commands: Vec::new(),
                    queries: Vec::new(),
                    value_objects: Vec::new(),
                    entities: Vec::new(),
                    references: Vec::new(),
                    lifecycle: None,
                    identified_by: None,
                    invariants: Vec::new(),
                    views: Vec::new(),
                },
                0,
            )
        },
    }
}

} // verus!

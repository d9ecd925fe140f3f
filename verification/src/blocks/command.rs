//! Command and factory blocks.

use vstd::prelude::*;
use crate::text::{Stop, chars_of, contains_char, contains_char_exec, eq_str, find_char, find_char_exec, find_seq, find_str, lines_of, opt_string, slice, split_char, split_char_exec, starts_with, starts_with_str, string_of, strings_view, strip_prefix_rep, strip_prefix_rep_exec, strip_tail, strip_tail_exec, strs_view, tail, take_until, take_until_exec, trim, trim_exec, trim_start, trim_start_exec, views, words, words_exec};
use crate::ir::{Attribute, Cardinality, Command, CommandModel, Factory, FactoryModel, Given, GivenModel, Mutation, MutationModel, MutationOp, Reference, ReferenceKind, ReferenceModel, group_views, opt_view, reference_model};
use crate::helpers::{ShorthandModel, ShorthandResult, block_of, block_of_exec, block_panics, block_panics_exec, ends_with_do_block_chars, extract_kwarg_symbol_chars, extract_string_chars, extract_symbol_chars, extract_word_after_chars, is_shorthand_line_chars, kwarg_symbol, nonempty, nonempty_exec, opens_do_block, or_default, parse_shorthand_chars, shorthand, shorthand_line, snake, string_literal, symbol_of, to_snake_case_chars, word_after};
use crate::blocks::attribute::{attribute_of, mutation_of, parse_attribute_chars, parse_mutation_chars};

verus! {

broadcast use crate::ir::group_views;

proof fn lemma_keyword_lens()
    ensures
        ", as:"@.len() == 5,
        ", role:"@.len() == 7,
        "produces:"@.len() == 9,
{
    reveal_strlit(", as:");
    reveal_strlit(", role:");
    reveal_strlit("produces:");
}

// ---------------------------------------------------------------------
// Line-level pieces
// ---------------------------------------------------------------------

/// The role a `role "Name"` or `role Name[, as: ...]` line names.
pub open spec fn role_arg(line: Seq<char>) -> Option<Seq<char>> {
    let after = trim_start(strip_prefix_rep(line, "role"@));
    if after.len() > 0 && after[0] == '"' {
        string_literal(after)
    } else {
        nonempty(trim(take_until(after, Stop::CommaOrWhite)))
    }
}

fn parse_role_arg(line: &Vec<char>) -> (r: Option<Vec<char>>)
    ensures
        opt_view(r) == role_arg(line@),
{
    let s0 = strip_prefix_rep_exec(line, "role");
    let after = trim_start_exec(&s0);
    if after.len() > 0 && after[0] == '"' {
        extract_string_chars(&after)
    } else {
        let t0 = take_until_exec(&after, &Stop::CommaOrWhite);
        nonempty_exec(trim_exec(&t0))
    }
}

/// The bare constant after `produces:` on a factory opener.
pub open spec fn produces_of(first: Seq<char>) -> Option<Seq<char>> {
    match find_seq(first, "produces:"@) {
        None => None,
        Some(pos) => {
            let after = trim_start(first.subrange(pos + 9, first.len() as int));
            nonempty(strip_tail(trim(take_until(after, Stop::NonWord)), Stop::Other(':')))
        },
    }
}

fn extract_produces(first: &Vec<char>) -> (r: Option<Vec<char>>)
    ensures
        opt_view(r) == produces_of(first@),
{
    proof { lemma_keyword_lens(); }
    match find_str(first, "produces:") {
        None => None,
        Some(pos) => {
            let a0 = tail(first, pos + 9);
            let after = trim_start_exec(&a0);
            let t0 = take_until_exec(&after, &Stop::NonWord);
            let t1 = trim_exec(&t0);
            nonempty_exec(strip_tail_exec(&t1, &Stop::Other(':')))
        },
    }
}

/// A `given "msg" { expr }` precondition; the block is the expression and
/// the quoted text before it the message.
pub open spec fn given_of(line: Seq<char>) -> GivenModel {
    let head = match find_char(line, '{') {
        Some(o) => line.subrange(0, o),
        None => line,
    };
    let msg = string_literal(head);
    GivenModel {
        expression: match block_of(line) {
            Some(b) => b,
            None => or_default(msg, Seq::empty()),
        },
        message: msg,
    }
}

fn given_exec(line: &Vec<char>) -> (r: Given)
    ensures
        r@ == given_of(line@),
{
    let head = match find_char_exec(line, '{') {
        Some(o) => slice(line, 0, o),
        None => line.clone(),
    };
    let msg = extract_string_chars(&head);
    let expression = match block_of_exec(line) {
        Some(b) => b,
        None => match &msg {
            Some(m) => m.clone(),
            None => Vec::new(),
        },
    };
    Given { expression: string_of(&expression), message: opt_string(&msg) }
}

/// The pieces at odd positions of `parts` (`skip(1).step_by(2)`).
pub open spec fn odd_pieces(parts: Seq<Seq<char>>) -> Seq<Seq<char>> {
    Seq::new((parts.len() / 2) as nat, |k: int| parts[2 * k + 1])
}

fn odd_pieces_exec(parts: &Vec<Vec<char>>) -> (r: Vec<String>)
    ensures
        strings_view(r@) == odd_pieces(views(parts@)),
{
    let ghost ps = views(parts@);
    let mut out: Vec<String> = Vec::new();
    let mut k: usize = 1;
    while k < parts.len()
        invariant
            ps == views(parts@),
            k % 2 == 1,
            out@.len() == (k - 1) / 2,
            k <= parts.len() + 1,
            forall|m: int| 0 <= m < out@.len() ==> #[trigger] out@[m]@ == ps[2 * m + 1],
        decreases parts.len() + 1 - k,
    {
        out.push(string_of(&parts[k]));
        k = k + 2;
    }
    assert(out@.len() == ps.len() / 2);
    assert(strings_view(out@) =~= odd_pieces(ps));
    out
}

/// The reference a command's `reference_to Target[, as: :x | , role: :x]`
/// line declares.
pub open spec fn command_reference(line: Seq<char>, target: Seq<char>) -> ReferenceModel {
    let name = match find_seq(line, ", as:"@) {
        Some(p) => or_default(symbol_of(line.subrange(p + 5, line.len() as int)), snake(target)),
        None => match find_seq(line, ", role:"@) {
            Some(p) => or_default(symbol_of(line.subrange(p + 7, line.len() as int)), snake(target)),
            None => snake(target),
        },
    };
    reference_model(name, target, None, Cardinality::Single, ReferenceKind::LegacyReferenceTo)
}

/// The command after a shorthand attribute or reference line.
pub open spec fn with_shorthand(line: Seq<char>, c: CommandModel) -> CommandModel {
    match shorthand(line) {
        ShorthandModel::Attribute(a) => CommandModel { attributes: c.attributes.push(a), ..c },
        ShorthandModel::Reference(r) => CommandModel { references: c.references.push(r), ..c },
        ShorthandModel::Nothing => c,
    }
}

/// The command after one line of its body at depth one; `None` for a
/// `given` whose closing brace comes before its opening one (its body
/// cannot be sliced out).
pub open spec fn command_line(line: Seq<char>, c: CommandModel) -> Option<CommandModel> {
    if starts_with(line, "given"@) && !(starts_with(line, "attribute"@) || shorthand_line(line)
        || starts_with(line, "role"@) || starts_with(line, "goal"@) || starts_with(line, "description"@)
        || starts_with(line, "emits"@) || starts_with(line, "redirects_native"@)
        || starts_with(line, "reference_to"@)) && block_panics(line) {
        None
    } else {
        Some(command_line_total(line, c))
    }
}

/// The command after one line of its body at depth one, crossed braces
/// aside.
pub open spec fn command_line_total(line: Seq<char>, c: CommandModel) -> CommandModel {
    if starts_with(line, "attribute"@) {
        match attribute_of(line) {
            Some(a) => CommandModel { attributes: c.attributes.push(a), ..c },
            None => c,
        }
    } else if shorthand_line(line) {
        with_shorthand(line, c)
    } else if starts_with(line, "role"@) {
        CommandModel { role: role_arg(line), ..c }
    } else if starts_with(line, "goal"@) || starts_with(line, "description"@) {
        CommandModel { description: string_literal(line), ..c }
    } else if starts_with(line, "emits"@) {
        CommandModel {
            emits: string_literal(line),
            emits_identified_by: kwarg_symbol(line, "identified_by"@),
            ..c
        }
    } else if starts_with(line, "redirects_native"@) {
        CommandModel { redirects_native: odd_pieces(split_char(line, '"')), ..c }
    } else if starts_with(line, "reference_to"@) {
        match word_after(line, "reference_to"@) {
            Some(t) => CommandModel { references: c.references.push(command_reference(line, t)), ..c },
            None => c,
        }
    } else if starts_with(line, "given"@) {
        CommandModel { givens: c.givens.push(given_of(line)), ..c }
    } else if starts_with(line, "then_set"@) {
        match mutation_of(line) {
            Some(m) => CommandModel { mutations: c.mutations.push(m), ..c },
            None => c,
        }
    } else if starts_with(line, "then_toggle"@) {
        match symbol_of(line) {
            Some(f) => CommandModel {
                mutations: c.mutations.push(
                    MutationModel { field: f, operation: MutationOp::Toggle, value: Seq::empty(), invalid_op: None },
                ),
                ..c
            },
            None => c,
        }
    } else if starts_with(line, "then_delete"@) {
        CommandModel {
            mutations: c.mutations.push(
                MutationModel {
                    field: Seq::empty(),
                    operation: MutationOp::Delete,
                    value: Seq::empty(),
                    invalid_op: None,
                },
            ),
            ..c
        }
    } else {
        c
    }
}

/// One `;`-separated part of an inline `{ ... }` command body.
pub open spec fn inline_part(part0: Seq<char>, c: CommandModel) -> CommandModel {
    let part = trim(part0);
    if starts_with(part, "role"@) {
        CommandModel { role: role_arg(part), ..c }
    } else if starts_with(part, "emits"@) {
        CommandModel {
            emits: string_literal(part),
            emits_identified_by: kwarg_symbol(part, "identified_by"@),
            ..c
        }
    } else if starts_with(part, "attribute"@) {
        match attribute_of(part) {
            Some(a) => CommandModel { attributes: c.attributes.push(a), ..c },
            None => c,
        }
    } else if starts_with(part, "reference_to"@) {
        match word_after(part, "reference_to"@) {
            Some(t) => CommandModel {
                references: c.references.push(
                    reference_model(snake(t), t, None, Cardinality::Single, ReferenceKind::LegacyReferenceTo),
                ),
                ..c
            },
            None => c,
        }
    } else if shorthand_line(part) {
        with_shorthand(part, c)
    } else {
        c
    }
}

/// The parts applied in order.
pub open spec fn inline_parts(parts: Seq<Seq<char>>, c: CommandModel) -> CommandModel
    decreases parts.len(),
{
    if parts.len() == 0 {
        c
    } else {
        inline_part(parts.last(), inline_parts(parts.drop_last(), c))
    }
}

/// A one-line `command "X" { role "R"; attribute :a, String }`; `None`
/// when its closing brace comes before its opening one.
pub open spec fn inline_command(line: Seq<char>, c: CommandModel) -> Option<CommandModel> {
    if block_panics(line) {
        None
    } else {
        Some(
            match block_of(line) {
                Some(b) => inline_parts(split_char(b, ';'), c),
                None => c,
            },
        )
    }
}

// ---------------------------------------------------------------------
// Blocks
// ---------------------------------------------------------------------

/// Whether a body line at depth one that ends in `do` keeps its own
/// meaning rather than opening a nested block.
pub open spec fn keeps_line(line: Seq<char>) -> bool {
    starts_with(line, "attribute"@) || starts_with(line, "role"@) || starts_with(line, "given"@)
        || starts_with(line, "then_"@)
}

/// Walks a command body from line `at + i` at block depth `depth`; `None`
/// when a body line fails.
pub open spec fn command_walk(ls: Seq<Seq<char>>, at: int, i: int, depth: int, c: CommandModel) -> Option<(CommandModel, int)>
    decreases ls.len() - (at + i),
{
    if at < 0 || i < 0 || at + i >= ls.len() || depth <= 0 {
        Some((c, i + 1))
    } else {
        let line = trim(ls[at + i]);
        if line == "end"@ {
            if depth - 1 == 0 {
                Some((c, i + 1))
            } else {
                command_walk(ls, at, i + 1, depth - 1, c)
            }
        } else if opens_do_block(line) && (depth > 1 || !keeps_line(line)) {
            command_walk(ls, at, i + 1, depth + 1, c)
        } else if depth == 1 {
            match command_line(line, c) {
                Some(c2) => command_walk(ls, at, i + 1, depth, c2),
                None => None,
            }
        } else {
            command_walk(ls, at, i + 1, depth, c)
        }
    }
}

/// The command's name: quoted, or else the first word.
pub open spec fn command_name(first: Seq<char>) -> Seq<char> {
    match string_literal(first) {
        Some(n) => n,
        None => if words(first).len() > 0 {
            words(first)[0]
        } else {
            Seq::empty()
        },
    }
}

/// A command with only its name.
pub open spec fn bare_command(name: Seq<char>) -> CommandModel {
    CommandModel {
        name,
        description: None,
        role: None,
        attributes: Seq::empty(),
        references: Seq::empty(),
        emits: None,
        emits_identified_by: None,
        givens: Seq::empty(),
        mutations: Seq::empty(),
        redirects_native: Seq::empty(),
    }
}

/// `parse_command`'s result for the block opening at `ls[at]`: an inline
/// `{ ... }` command or a bare declaration takes one line; `None` where a
/// block's braces cross.
pub open spec fn command_block(ls: Seq<Seq<char>>, at: int) -> Option<(CommandModel, int)> {
    let first = trim(ls[at]);
    let c0 = bare_command(command_name(first));
    if contains_char(first, '{') && contains_char(first, '}') {
        match inline_command(first, c0) {
            Some(c) => Some((c, 1)),
            None => None,
        }
    } else if !opens_do_block(first) {
        Some((c0, 1))
    } else {
        command_walk(ls, at, 1, 1, c0)
    }
}

/// The factory a command body makes, with the aggregate it produces.
pub open spec fn factory_of(c: CommandModel, produces: Option<Seq<char>>) -> FactoryModel {
    FactoryModel {
        name: c.name,
        description: c.description,
        role: c.role,
        produces,
        attributes: c.attributes,
        references: c.references,
        emits: c.emits,
        emits_identified_by: c.emits_identified_by,
        givens: c.givens,
        mutations: c.mutations,
    }
}

/// `parse_factory`'s result: the command read from the same lines, with
/// the aggregate its opener `produces:`.
pub open spec fn factory_block(ls: Seq<Seq<char>>, at: int) -> Option<(FactoryModel, int)> {
    match command_block(ls, at) {
        Some((c, n)) => Some((factory_of(c, produces_of(trim(ls[at]))), n)),
        None => None,
    }
}


fn with_shorthand_exec(line: &Vec<char>, c: &mut Command)
    ensures
        final(c)@ == with_shorthand(line@, old(c)@),
{
    match parse_shorthand_chars(line) {
        ShorthandResult::Attribute(a) => {
            c.attributes.push(a);
        },
        ShorthandResult::Reference(r) => {
            c.references.push(r);
        },
        ShorthandResult::Neither => {},
    }
}

fn command_line_exec(line: &Vec<char>, c: &mut Command) -> (ok: bool)
    ensures
        ok == command_line(line@, old(c)@) is Some,
        ok ==> final(c)@ == command_line(line@, old(c)@)->0,
{
    proof { lemma_keyword_lens(); }
    if starts_with_str(line, "attribute") {
        match parse_attribute_chars(line) {
            Some(a) => {
                c.attributes.push(a);
            },
            None => {},
        }
    } else if is_shorthand_line_chars(line) {
        with_shorthand_exec(line, c);
    } else if starts_with_str(line, "role") {
        c.role = opt_string(&parse_role_arg(line));
    } else if starts_with_str(line, "goal") || starts_with_str(line, "description") {
        c.description = opt_string(&extract_string_chars(line));
    } else if starts_with_str(line, "emits") {
        c.emits = opt_string(&extract_string_chars(line));
        let k = chars_of("identified_by");
        c.emits_identified_by = opt_string(&extract_kwarg_symbol_chars(line, &k));
    } else if starts_with_str(line, "redirects_native") {
        let parts = split_char_exec(line, '"');
        c.redirects_native = odd_pieces_exec(&parts);
    } else if starts_with_str(line, "reference_to") {
        let k = chars_of("reference_to");
        match extract_word_after_chars(line, &k) {
            Some(t) => {
                let dflt = to_snake_case_chars(&t);
                let name = match find_str(line, ", as:") {
                    Some(p) => {
                        let rest = tail(line, p + 5);
                        match extract_symbol_chars(&rest) {
                            Some(n) => n,
                            None => dflt,
                        }
                    },
                    None => match find_str(line, ", role:") {
                        Some(p) => {
                            let rest = tail(line, p + 7);
                            match extract_symbol_chars(&rest) {
                                Some(n) => n,
                                None => dflt,
                            }
                        },
                        None => dflt,
                    },
                };
                c.references.push(Reference::single(string_of(&name), string_of(&t), None));
            },
            None => {},
        }
    } else if starts_with_str(line, "given") {
        if block_panics_exec(line) {
            return false;
        }
        c.givens.push(given_exec(line));
    } else if starts_with_str(line, "then_set") {
        match parse_mutation_chars(line) {
            Some(m) => {
                c.mutations.push(m);
            },
            None => {},
        }
    } else if starts_with_str(line, "then_toggle") {
        match extract_symbol_chars(line) {
            Some(f) => {
                c.mutations.push(
                    Mutation { field: string_of(&f), operation: MutationOp::Toggle, value: String::new(), invalid_op: None },
                );
            },
            None => {},
        }
    } else if starts_with_str(line, "then_delete") {
        c.mutations.push(
            Mutation { field: String::new(), operation: MutationOp::Delete, value: String::new(), invalid_op: None },
        );
    }
    true
}

fn inline_part_exec(part0: &Vec<char>, c: &mut Command)
    ensures
        final(c)@ == inline_part(part0@, old(c)@),
{
    let part = trim_exec(part0);
    if starts_with_str(&part, "role") {
        c.role = opt_string(&parse_role_arg(&part));
    } else if starts_with_str(&part, "emits") {
        c.emits = opt_string(&extract_string_chars(&part));
        let k = chars_of("identified_by");
        c.emits_identified_by = opt_string(&extract_kwarg_symbol_chars(&part, &k));
    } else if starts_with_str(&part, "attribute") {
        match parse_attribute_chars(&part) {
            Some(a) => {
                c.attributes.push(a);
            },
            None => {},
        }
    } else if starts_with_str(&part, "reference_to") {
        let k = chars_of("reference_to");
        match extract_word_after_chars(&part, &k) {
            Some(t) => {
                let snake_name = to_snake_case_chars(&t);
                c.references.push(Reference::single(string_of(&snake_name), string_of(&t), None));
            },
            None => {},
        }
    } else if is_shorthand_line_chars(&part) {
        with_shorthand_exec(&part, c);
    }
}

fn parse_inline_command(line: &Vec<char>, c: &mut Command) -> (ok: bool)
    ensures
        ok == inline_command(line@, old(c)@) is Some,
        ok ==> final(c)@ == inline_command(line@, old(c)@)->0,
{
    if block_panics_exec(line) {
        return false;
    }
    match block_of_exec(line) {
        None => {},
        Some(b) => {
            let parts = split_char_exec(&b, ';');
            let ghost ps = views(parts@);
            let ghost c0 = c@;
            let mut i: usize = 0;
            assert(ps.take(0) =~= Seq::<Seq<char>>::empty());
            while i < parts.len()
                invariant
                    i <= parts.len(),
                    ps == views(parts@),
                    c@ == inline_parts(ps.take(i as int), c0),
                decreases parts.len() - i,
            {
                assert(ps.take(i + 1).drop_last() =~= ps.take(i as int));
                assert(ps.take(i + 1).last() == parts@[i as int]@);
                inline_part_exec(&parts[i], c);
                i = i + 1;
            }
            assert(ps.take(parts.len() as int) =~= ps);
        },
    }
    true
}

fn command_name_exec(first: &Vec<char>) -> (r: Vec<char>)
    ensures
        r@ == command_name(first@),
{
    match extract_string_chars(first) {
        Some(n) => n,
        None => {
            let w = words_exec(first);
            if w.len() > 0 {
                w[0].clone()
            } else {
                Vec::new()
            }
        },
    }
}

fn keeps_line_exec(line: &Vec<char>) -> (r: bool)
    ensures
        r == keeps_line(line@),
{
    starts_with_str(line, "attribute") || starts_with_str(line, "role") || starts_with_str(line, "given")
        || starts_with_str(line, "then_")
}

pub fn parse_command_chars(lines: &Vec<Vec<char>>, at: usize) -> (r: Option<(Command, usize)>)
    requires
        at < lines.len() < usize::MAX,
    ensures
        match r {
            Some((c, n)) => command_block(views(lines@), at as int) == Some((c@, n as int)),
            None => command_block(views(lines@), at as int) is None,
        },
        r matches Some((_, n)) ==> 1 <= n <= lines.len() + 1 - at,
{
    let ghost ls = views(lines@);
    let first = trim_exec(&lines[at]);
    assert(ls[at as int] == lines@[at as int]@);
    let name = command_name_exec(&first);
    let mut c = Command {
        name: string_of(&name),
        description: None,
        role: None,
        attributes: Vec::new(),
        references: Vec::new(),
        emits: None,
        emits_identified_by: None,
        givens: Vec::new(),
        mutations: Vec::new(),
        redirects_native: Vec::new(),
    };
    assert(c@ =~= bare_command(name@));
    if contains_char_exec(&first, '{') && contains_char_exec(&first, '}') {
        if parse_inline_command(&first, &mut c) {
            return Some((c, 1));
        }
        return None;
    }
    if !ends_with_do_block_chars(&first) {
        return Some((c, 1));
    }
    let mut i: usize = 1;
    let mut depth: usize = 1;
    while i < lines.len() - at && depth > 0
        invariant
            at < lines.len() < usize::MAX,
            ls == views(lines@),
            1 <= i <= lines.len() - at,
            depth <= i,
            command_walk(ls, at as int, i as int, depth as int, c@) == command_block(ls, at as int),
        decreases lines.len() - at - i,
    {
        assert(ls[at + i] == lines@[at + i]@);
        let line = trim_exec(&lines[at + i]);
        if eq_str(&line, "end") {
            depth = depth - 1;
            if depth == 0 {
                return Some((c, i + 1));
            }
        } else if ends_with_do_block_chars(&line) && (depth > 1 || !keeps_line_exec(&line)) {
            depth = depth + 1;
        } else if depth == 1 {
            if !command_line_exec(&line, &mut c) {
                return None;
            }
        }
        i = i + 1;
    }
    Some((c, i + 1))
}

/// Parse a `command "Name" do ... end` block (or a bare declaration, or a
/// one-line `{ ...; ... }` body): role, description, attributes,
/// references, emitted event, guards, mutations and the native tools it
/// stands in for. Returns the command and the lines consumed. A `given`
/// (or inline body) whose braces cross is outside its domain.
pub fn parse_command(lines: &[&str]) -> (r: (Command, usize))
    requires
        0 < lines.len() < usize::MAX,
        command_block(strs_view(lines@), 0) is Some,
    ensures
        command_block(strs_view(lines@), 0) == Some((r.0@, r.1 as int)),
{
    let ls = lines_of(lines);
    match parse_command_chars(&ls, 0) {
        Some(r) => r,
        None => (empty_command(), 0),
    }
}

fn empty_command() -> (c: Command)
    ensures
        c@ == (CommandModel {
            name: Seq::empty(),
            description: None,
            role: None,
            attributes: Seq::empty(),
            references: Seq::empty(),
            emits: None,
            emits_identified_by: None,
            givens: Seq::empty(),
            mutations: Seq::empty(),
            redirects_native: Seq::empty(),
        }),
{
    let c = Command {
        name: String::new(),
        description: None,
        role: None,
        attributes: Vec::new(),
        references: Vec::new(),
        emits: None,
        emits_identified_by: None,
        givens: Vec::new(),
        mutations: Vec::new(),
        redirects_native: Vec::new(),
    };
    assert(c@ =~= (CommandModel {
        name: Seq::empty(),
        description: None,
        role: None,
        attributes: Seq::empty(),
        references: Seq::empty(),
        emits: None,
        emits_identified_by: None,
        givens: Seq::empty(),
        mutations: Seq::empty(),
        redirects_native: Seq::empty(),
    }));
    c
}

pub fn parse_factory_chars(lines: &Vec<Vec<char>>, at: usize) -> (r: Option<(Factory, usize)>)
    requires
        at < lines.len() < usize::MAX,
    ensures
        match r {
            Some((f, n)) => factory_block(views(lines@), at as int) == Some((f@, n as int)),
            None => factory_block(views(lines@), at as int) is None,
        },
{
    let first = trim_exec(&lines[at]);
    assert(views(lines@)[at as int] == lines@[at as int]@);
    let produces = extract_produces(&first);
    let (c, consumed) = match parse_command_chars(lines, at) {
        Some(r) => r,
        None => return None,
    };
    let f = Factory {
        name: c.name,
        description: c.description,
        role: c.role,
        produces: opt_string(&produces),
        attributes: c.attributes,
        references: c.references,
        emits: c.emits,
        emits_identified_by: c.emits_identified_by,
        givens: c.givens,
        mutations: c.mutations,
    };
    Some((f, consumed))
}

/// Parse a `factory "Name"[, produces: Aggregate] do ... end` block: a
/// command body that mints the aggregate it `produces:` (the enclosing one
/// when absent). Returns the factory and the lines consumed.
pub fn parse_factory(lines: &[&str]) -> (r: (Factory, usize))
    requires
        0 < lines.len() < usize::MAX,
        factory_block(strs_view(lines@), 0) is Some,
    ensures
        factory_block(strs_view(lines@), 0) == Some((r.0@, r.1 as int)),
{
    let ls = lines_of(lines);
    match parse_factory_chars(&ls, 0) {
        Some(r) => r,
        None => {
            let c = empty_command();
            (
                Factory {
                    name: c.name,
                    description: None,
                    role: None,
                    produces: None,
                    attributes: Vec::new(),
                    references: Vec::new(),
                    emits: None,
                    emits_identified_by: None,
                    givens: Vec::new(),
                    mutations: Vec::new(),
                },
                0,
            )
        },
    }
}

pub proof fn lemma_command_walk(ls: Seq<Seq<char>>, at: int, i: int, depth: int, c: CommandModel)
    requires
        0 <= at,
        1 <= i,
        at + i <= ls.len(),
    ensures
        command_walk(ls, at, i, depth, c) matches Some((_, n)) ==> i + 1 <= n <= ls.len() + 1 - at,
    decreases ls.len() - (at + i),
{
    if at + i < ls.len() && depth > 0 {
        let line = trim(ls[at + i]);
        if line == "end"@ {
            if depth - 1 != 0 {
                lemma_command_walk(ls, at, i + 1, depth - 1, c);
            }
        } else if opens_do_block(line) && (depth > 1 || !keeps_line(line)) {
            lemma_command_walk(ls, at, i + 1, depth + 1, c);
        } else if depth == 1 {
            if command_line(line, c) is Some {
                lemma_command_walk(ls, at, i + 1, depth, command_line(line, c)->0);
            }
        } else {
            lemma_command_walk(ls, at, i + 1, depth, c);
        }
    }
}

/// A command block takes at least its opener and at most what follows it
/// plus one.
pub proof fn lemma_command_block(ls: Seq<Seq<char>>, at: int)
    requires
        0 <= at < ls.len(),
    ensures
        command_block(ls, at) matches Some((_, n)) ==> 1 <= n <= ls.len() + 1 - at,
{
    let first = trim(ls[at]);
    if !(contains_char(first, '{') && contains_char(first, '}')) && opens_do_block(first) {
        lemma_command_walk(ls, at, 1, 1, bare_command(command_name(first)));
    }
}

} // verus!

//! Bluebook sources to domains: the top-level walk that routes each block
//! keyword to its parser through a block grammar.

use vstd::prelude::*;
use crate::text::{Stop, char_is_alphanumeric, chars_of, contains_char, eq_str, find_char, find_char_exec, find_char_from, find_seq, find_str, is_alnum, lemma_find_char_first, lemma_find_char_from, lines_of, slice, split_char, split_char_exec, split_from, starts_with, starts_with_exec, starts_with_str, string_of, strip_lead, strip_lead_exec, strs_view, tail, take_until, take_until_exec, trim, trim_exec, views};
use crate::ir::{Aggregate, AggregateModel, BlockGrammar, BlockGrammarEntry, BlockGrammarEntryModel, BlockGrammarModel, BlockParser, Cadence, Domain, DomainModel, Fixture, Policy, ProcessManager, Section, canonical_keywords, group_views, opt_view, parser_named, seq_view};
use crate::helpers::{ends_with_do_block_chars, extract_string_chars, opens_do_block, or_default, string_literal};
use crate::blocks::aggregate::{aggregate_block, lemma_aggregate_block, lines_left, parse_aggregate_chars};
use crate::blocks::dispatch::{parse_process_manager_chars, process_manager};
use crate::blocks::policy::{parse_policy_chars, policy_block};
use crate::blocks::section::{cadence_block, parse_cadence_chars, parse_section_chars, section_block};

verus! {

broadcast use crate::ir::group_views;

proof fn lemma_keyword_lens()
    ensures
        "#!"@.len() == 2,
        "parser:"@.len() == 7,
        "#!"@[0] == '#' && "#!"@[1] == '!',
{
    reveal_strlit("#!");
    reveal_strlit("parser:");
}

// ---------------------------------------------------------------------
// Sources and lines
// ---------------------------------------------------------------------

/// The source with a leading `#!...` line removed.
pub open spec fn without_shebang(s: Seq<char>) -> Seq<char> {
    if starts_with(s, "#!"@) {
        match find_char(s, '\n') {
            Some(nl) => s.subrange(nl + 1, s.len() as int),
            None => Seq::empty(),
        }
    } else {
        s
    }
}

pub fn strip_shebang_chars(s: &Vec<char>) -> (r: Vec<char>)
    ensures
        r@ == without_shebang(s@),
        r@.len() <= s@.len(),
{
    if starts_with_str(s, "#!") {
        match find_char_exec(s, '\n') {
            Some(nl) => tail(s, nl + 1),
            None => Vec::new(),
        }
    } else {
        s.clone()
    }
}

/// Strip a leading `#!...` line; everything after its newline passes
/// through untouched, and a source without one is returned whole.
pub fn strip_shebang(source: &str) -> (r: String)
    ensures
        r@ == without_shebang(source@),
{
    let s = chars_of(source);
    let t = strip_shebang_chars(&s);
    string_of(&t)
}

/// A line as `str::lines` yields it: a `\r` before the newline dropped.
pub open spec fn line_piece(parts: Seq<Seq<char>>, k: int) -> Seq<char> {
    if k + 1 < parts.len() && parts[k].len() > 0 && parts[k].last() == '\r' {
        parts[k].drop_last()
    } else {
        parts[k]
    }
}

/// `str::lines`: the pieces between newlines, without a final empty one.
pub open spec fn source_lines(s: Seq<char>) -> Seq<Seq<char>> {
    let parts = split_char(s, '\n');
    let n = if parts.len() > 0 && parts.last().len() == 0 { parts.len() - 1 } else { parts.len() as int };
    Seq::new(n as nat, |k: int| line_piece(parts, k))
}

pub proof fn lemma_split_len(s: Seq<char>, c: char, start: int)
    requires
        0 <= start <= s.len(),
    ensures
        1 <= split_from(s, c, start).len() <= s.len() - start + 1,
    decreases s.len() - start,
{
    lemma_find_char_from(s, c, start);
    match find_char_from(s, c, start) {
        Some(k) => {
            lemma_split_len(s, c, k + 1);
        },
        None => {},
    }
}

pub fn source_lines_exec(s: &Vec<char>) -> (r: Vec<Vec<char>>)
    ensures
        views(r@) == source_lines(s@),
        r@.len() <= s@.len() + 1,
{
    let parts = split_char_exec(s, '\n');
    let ghost ps = views(parts@);
    proof { lemma_split_len(s@, '\n', 0); }
    let n = if parts.len() > 0 && parts[parts.len() - 1].len() == 0 {
        parts.len() - 1
    } else {
        parts.len()
    };
    let mut out: Vec<Vec<char>> = Vec::new();
    let mut k: usize = 0;
    while k < n
        invariant
            ps == views(parts@),
            n <= parts.len(),
            n == (if ps.len() > 0 && ps.last().len() == 0 { ps.len() - 1 } else { ps.len() as int }),
            k <= n,
            out@.len() == k,
            forall|m: int| 0 <= m < k ==> #[trigger] out@[m]@ == line_piece(ps, m),
        decreases n - k,
    {
        let p = &parts[k];
        assert(ps[k as int] == p@);
        let piece = if k + 1 < parts.len() && p.len() > 0 && p[p.len() - 1] == '\r' {
            slice(p, 0, p.len() - 1)
        } else {
            p.clone()
        };
        assert(piece@ == line_piece(ps, k as int));
        out.push(piece);
        k = k + 1;
    }
    assert(views(out@) =~= source_lines(s@));
    out
}

// ---------------------------------------------------------------------
// Keywords and the grammar registry
// ---------------------------------------------------------------------

/// The character a byte-indexed look at `c` sees: `c` itself when ASCII,
/// else the first byte of its UTF-8 encoding read as a character.
pub open spec fn lead_byte_char(c: char) -> char {
    if (c as u32) < 0x80 {
        c
    } else if (c as u32) < 0x800 {
        ((0xC0 + (c as u32) / 64) as u8) as char
    } else if (c as u32) < 0x10000 {
        ((0xE0 + (c as u32) / 4096) as u8) as char
    } else {
        ((0xF0 + (c as u32) / 262144) as u8) as char
    }
}

fn lead_byte_char_exec(c: char) -> (r: char)
    ensures
        r == lead_byte_char(c),
{
    let u = c as u32;
    if u < 0x80 {
        c
    } else if u < 0x800 {
        ((0xC0 + u / 64) as u8) as char
    } else if u < 0x10000 {
        ((0xE0 + u / 4096) as u8) as char
    } else {
        ((0xF0 + u / 262144) as u8) as char
    }
}

/// `line` opens with `keyword` as a whole word: what follows is nothing,
/// or neither alphanumeric nor `_`.
pub open spec fn keyword_matches(line: Seq<char>, keyword: Seq<char>) -> bool {
    starts_with(line, keyword) && (line.len() == keyword.len() || {
        let b = lead_byte_char(line[keyword.len() as int]);
        !(is_alnum(b) || b == '_')
    })
}

fn keyword_matches_exec(line: &Vec<char>, keyword: &Vec<char>) -> (r: bool)
    ensures
        r == keyword_matches(line@, keyword@),
{
    if !starts_with_exec(line, keyword) {
        return false;
    }
    if line.len() == keyword.len() {
        return true;
    }
    let b = lead_byte_char_exec(line[keyword.len()]);
    !(char_is_alphanumeric(b) || b == '_')
}

/// The parser of the first grammar entry from `k` whose keyword the line
/// opens with.
pub open spec fn grammar_match(line: Seq<char>, es: Seq<BlockGrammarEntryModel>, k: int) -> Option<BlockParser>
    decreases es.len() - k,
{
    if k < 0 || k >= es.len() {
        None
    } else if keyword_matches(line, es[k].keyword) {
        Some(es[k].parser)
    } else {
        grammar_match(line, es, k + 1)
    }
}

fn grammar_match_exec(line: &Vec<char>, g: &BlockGrammar) -> (r: Option<BlockParser>)
    ensures
        r == grammar_match(line@, g@.blocks, 0),
{
    let mut k: usize = 0;
    while k < g.blocks.len()
        invariant
            k <= g.blocks.len(),
            grammar_match(line@, g@.blocks, k as int) == grammar_match(line@, g@.blocks, 0),
        decreases g.blocks.len() - k,
    {
        let kw = chars_of(g.blocks[k].keyword.as_str());
        assert(g@.blocks[k as int] == g.blocks@[k as int]@);
        if keyword_matches_exec(line, &kw) {
            return Some(g.blocks[k].parser);
        }
        k = k + 1;
    }
    None
}

/// One `block "<keyword>", parser: :<name>` line.
pub open spec fn grammar_line(line: Seq<char>) -> Option<BlockGrammarEntryModel> {
    match string_literal(line) {
        None => None,
        Some(keyword) => match find_seq(line, "parser:"@) {
            None => None,
            Some(pos) => {
                let after = trim(line.subrange(pos + 7, line.len() as int));
                let name = if after.len() > 0 && after[0] == ':' {
                    Some(take_until(strip_lead(after, Stop::Other(':')), Stop::CommaOrWhite))
                } else if after.len() > 0 && after[0] == '"' {
                    string_literal(after)
                } else {
                    Some(take_until(after, Stop::CommaOrWhite))
                };
                match name {
                    None => None,
                    Some(n) => match parser_named(n) {
                        Some(p) => Some(BlockGrammarEntryModel { keyword, parser: p }),
                        None => None,
                    },
                }
            },
        },
    }
}

fn parse_block_grammar_line(line: &Vec<char>) -> (r: Option<BlockGrammarEntry>)
    ensures
        opt_view(r) == grammar_line(line@),
{
    proof { lemma_keyword_lens(); }
    let keyword = match extract_string_chars(line) {
        None => return None,
        Some(k) => k,
    };
    let pos = match find_str(line, "parser:") {
        None => return None,
        Some(p) => p,
    };
    let a0 = tail(line, pos + 7);
    let after = trim_exec(&a0);
    let name = if after.len() > 0 && after[0] == ':' {
        let s0 = strip_lead_exec(&after, &Stop::Other(':'));
        take_until_exec(&s0, &Stop::CommaOrWhite)
    } else if after.len() > 0 && after[0] == '"' {
        match extract_string_chars(&after) {
            None => return None,
            Some(n) => n,
        }
    } else {
        take_until_exec(&after, &Stop::CommaOrWhite)
    };
    let ns = string_of(&name);
    match BlockParser::from_name(ns.as_str()) {
        Some(p) => Some(BlockGrammarEntry { keyword: string_of(&keyword), parser: p }),
        None => None,
    }
}

/// Walks a block grammar's body from line `at + i` at depth `depth`.
pub open spec fn grammar_walk(ls: Seq<Seq<char>>, at: int, i: int, depth: int, es: Seq<BlockGrammarEntryModel>) -> (Seq<BlockGrammarEntryModel>, int)
    decreases ls.len() - (at + i),
{
    if at < 0 || i < 0 || at + i >= ls.len() || depth <= 0 {
        (es, i + 1)
    } else {
        let line = trim(ls[at + i]);
        if line == "end"@ {
            if depth - 1 == 0 {
                (es, i + 1)
            } else {
                grammar_walk(ls, at, i + 1, depth - 1, es)
            }
        } else if depth == 1 && starts_with(line, "block "@) {
            grammar_walk(
                ls,
                at,
                i + 1,
                depth,
                match grammar_line(line) {
                    Some(e) => es.push(e),
                    None => es,
                },
            )
        } else if opens_do_block(line) {
            grammar_walk(ls, at, i + 1, depth + 1, es)
        } else {
            grammar_walk(ls, at, i + 1, depth, es)
        }
    }
}

/// `parse_block_grammar`'s result for the block opening at `ls[at]`.
pub open spec fn grammar_block(ls: Seq<Seq<char>>, at: int) -> (BlockGrammarModel, int) {
    let (es, n) = grammar_walk(ls, at, 1, 1, Seq::empty());
    (BlockGrammarModel { name: or_default(string_literal(trim(ls[at])), Seq::empty()), blocks: es }, n)
}

pub proof fn lemma_grammar_walk(ls: Seq<Seq<char>>, at: int, i: int, depth: int, es: Seq<BlockGrammarEntryModel>)
    requires
        0 <= at,
        0 <= i,
    ensures
        grammar_walk(ls, at, i, depth, es).1 >= i + 1,
    decreases ls.len() - (at + i),
{
    if at + i < ls.len() && depth > 0 {
        let line = trim(ls[at + i]);
        if line == "end"@ {
            if depth - 1 != 0 {
                lemma_grammar_walk(ls, at, i + 1, depth - 1, es);
            }
        } else if depth == 1 && starts_with(line, "block "@) {
            lemma_grammar_walk(
                ls,
                at,
                i + 1,
                depth,
                match grammar_line(line) {
                    Some(e) => es.push(e),
                    None => es,
                },
            );
        } else if opens_do_block(line) {
            lemma_grammar_walk(ls, at, i + 1, depth + 1, es);
        } else {
            lemma_grammar_walk(ls, at, i + 1, depth, es);
        }
    }
}

pub fn parse_block_grammar_chars(lines: &Vec<Vec<char>>, at: usize) -> (r: (BlockGrammar, usize))
    requires
        at < lines.len() < usize::MAX,
    ensures
        (r.0@, r.1 as int) == grammar_block(views(lines@), at as int),
        2 <= r.1 <= lines.len() + 1 - at,
{
    let ghost ls = views(lines@);
    let first = trim_exec(&lines[at]);
    assert(ls[at as int] == lines@[at as int]@);
    let name = match extract_string_chars(&first) {
        Some(n) => n,
        None => Vec::new(),
    };
    let mut blocks: Vec<BlockGrammarEntry> = Vec::new();
    assert(seq_view(blocks@) =~= Seq::<BlockGrammarEntryModel>::empty());
    let mut i: usize = 1;
    let mut depth: usize = 1;
    while i < lines.len() - at && depth > 0
        invariant
            at < lines.len() < usize::MAX,
            ls == views(lines@),
            1 <= i <= lines.len() - at,
            depth <= i,
            name@ == or_default(string_literal(trim(ls[at as int])), Seq::empty()),
            grammar_walk(ls, at as int, i as int, depth as int, seq_view(blocks@))
                == grammar_walk(ls, at as int, 1, 1, Seq::empty()),
        decreases lines.len() - at - i,
    {
        assert(ls[at + i] == lines@[at + i]@);
        let line = trim_exec(&lines[at + i]);
        if eq_str(&line, "end") {
            depth = depth - 1;
            if depth == 0 {
                return (BlockGrammar { name: string_of(&name), blocks }, i + 1);
            }
        } else if depth == 1 && starts_with_str(&line, "block ") {
            match parse_block_grammar_line(&line) {
                Some(e) => {
                    blocks.push(e);
                },
                None => {},
            }
        } else if ends_with_do_block_chars(&line) {
            depth = depth + 1;
        }
        i = i + 1;
    }
    (BlockGrammar { name: string_of(&name), blocks }, i + 1)
}

/// Parse a `block_grammar "Name" do block "kw", parser: :name ... end`
/// block; entries naming an unknown parser are dropped. Returns the
/// grammar and the lines consumed.
pub fn parse_block_grammar(lines: &[&str]) -> (r: (BlockGrammar, usize))
    requires
        0 < lines.len() < usize::MAX,
    ensures
        (r.0@, r.1 as int) == grammar_block(strs_view(lines@), 0),
{
    let ls = lines_of(lines);
    parse_block_grammar_chars(&ls, 0)
}

// ---------------------------------------------------------------------
// Skipped blocks
// ---------------------------------------------------------------------

/// Lines of a `do ... end` block from `at + i`, counting nested blocks.
pub open spec fn do_walk(ls: Seq<Seq<char>>, at: int, i: int, depth: int) -> int
    decreases ls.len() - (at + i),
{
    if 0 <= at && 0 <= i && at + i + 1 < ls.len() && depth > 0 {
        let l = trim(ls[at + i + 1]);
        do_walk(ls, at, i + 1, if l == "end"@ { depth - 1 } else if opens_do_block(l) { depth + 1 } else { depth })
    } else {
        i + 1
    }
}

/// The lines a skipped `do ... end` block covers (one without `do`).
pub open spec fn do_block_len(ls: Seq<Seq<char>>, at: int) -> int {
    if !opens_do_block(trim(ls[at])) {
        1
    } else {
        do_walk(ls, at, 0, 1)
    }
}

pub proof fn lemma_do_walk(ls: Seq<Seq<char>>, at: int, i: int, depth: int)
    requires
        0 <= at,
        0 <= i,
        at + i < ls.len(),
    ensures
        i + 1 <= do_walk(ls, at, i, depth) <= ls.len() - at,
    decreases ls.len() - (at + i),
{
    if at + i + 1 < ls.len() && depth > 0 {
        let l = trim(ls[at + i + 1]);
        lemma_do_walk(ls, at, i + 1, if l == "end"@ { depth - 1 } else if opens_do_block(l) { depth + 1 } else { depth });
    }
}

fn consume_do_block(lines: &Vec<Vec<char>>, at: usize) -> (r: usize)
    requires
        at < lines.len(),
    ensures
        r == do_block_len(views(lines@), at as int),
        1 <= r <= lines.len() - at,
{
    let ghost ls = views(lines@);
    assert(ls[at as int] == lines@[at as int]@);
    let first = trim_exec(&lines[at]);
    if !ends_with_do_block_chars(&first) {
        return 1;
    }
    proof { lemma_do_walk(ls, at as int, 0, 1); }
    let mut depth: usize = 1;
    let mut i: usize = 0;
    while i + 1 < lines.len() - at && depth > 0
        invariant
            at < lines.len(),
            ls == views(lines@),
            at + i < lines.len(),
            depth <= i + 1,
            do_walk(ls, at as int, i as int, depth as int) == do_block_len(ls, at as int),
        decreases lines.len() - at - i,
    {
        i = i + 1;
        assert(ls[at + i] == lines@[at + i]@);
        let l = trim_exec(&lines[at + i]);
        if eq_str(&l, "end") {
            depth = depth - 1;
        } else if ends_with_do_block_chars(&l) {
            depth = depth + 1;
        }
    }
    i + 1
}


// ---------------------------------------------------------------------
// Domains
// ---------------------------------------------------------------------

/// The domain after a top-level line's header directives (`Hecks.bluebook`,
/// `category`, `vision`, `entrypoint`).
pub open spec fn domain_header(line: Seq<char>, d: DomainModel) -> DomainModel {
    let d1 = if starts_with(line, "Hecks.bluebook"@) && string_literal(line) is Some {
        DomainModel { name: string_literal(line)->0, ..d }
    } else {
        d
    };
    let d2 = if starts_with(line, "category"@) && !starts_with(line, "category,"@) && string_literal(line) is Some {
        DomainModel { category: string_literal(line), ..d1 }
    } else {
        d1
    };
    let d3 = if starts_with(line, "vision"@) && string_literal(line) is Some {
        DomainModel { vision: string_literal(line), ..d2 }
    } else {
        d2
    };
    if starts_with(line, "entrypoint"@) && string_literal(line) is Some {
        DomainModel { entrypoint: string_literal(line), ..d3 }
    } else {
        d3
    }
}

/// An aggregate as the domain holds it: stamped with the domain's name as
/// its context and the domain's category, when the domain has them.
pub open spec fn stamped(a: AggregateModel, d: DomainModel) -> AggregateModel {
    AggregateModel {
        context: if d.name.len() > 0 { Some(d.name) } else { a.context },
        category: if d.category is Some { d.category } else { a.category },
        ..a
    }
}

/// The domain after the block that `parser` reads at line `i`, and the
/// lines it took; `None` where that block fails.
pub open spec fn invoke_block(parser: BlockParser, ls: Seq<Seq<char>>, i: int, d: DomainModel) -> Option<(DomainModel, int)> {
    match parser {
        BlockParser::Aggregate => match aggregate_block(ls, i) {
            None => None,
            Some((a, n)) => Some((DomainModel { aggregates: d.aggregates.push(stamped(a, d)), ..d }, n)),
        },
        BlockParser::Section => {
            let (sec, n) = section_block(ls, i);
            Some((DomainModel { sections: d.sections.push(sec), ..d }, n))
        },
        BlockParser::Policy => {
            let (p, n) = policy_block(ls, i);
            Some((DomainModel { policies: d.policies.push(p), ..d }, n))
        },
        BlockParser::ProcessManager => {
            let (pm, n) = process_manager(ls, i);
            Some((DomainModel { process_managers: d.process_managers.push(pm), ..d }, n))
        },
        BlockParser::Cadence => {
            let (c, n) = cadence_block(ls, i);
            Some((DomainModel { cadences: d.cadences.push(c), ..d }, n))
        },
        BlockParser::Fixture => Some((d, do_block_len(ls, i))),
    }
}

pub proof fn lemma_invoke_block(parser: BlockParser, ls: Seq<Seq<char>>, i: int, d: DomainModel)
    requires
        0 <= i < ls.len(),
    ensures
        invoke_block(parser, ls, i, d) matches Some((_, n)) ==> n >= 1,
{
    lemma_aggregate_block(ls, i);
    lemma_do_walk(ls, i, 0, 1);
    crate::blocks::section::lemma_section_cadence_blocks(ls, i);
    crate::blocks::policy::lemma_policy_block(ls, i);
    crate::blocks::dispatch::lemma_process_manager(ls, i);
}

/// The domain after the top-level line `i` and what it opens, with the
/// line to go on from; `None` where a block fails.
#[verifier::opaque]
pub open spec fn domain_next(ls: Seq<Seq<char>>, i: int, d: DomainModel) -> Option<(DomainModel, int)> {
    let line = trim(ls[i]);
    let d1 = domain_header(line, d);
    if starts_with(line, "block_grammar"@) {
        let (g, n) = grammar_block(ls, i);
        Some((DomainModel { block_grammars: d1.block_grammars.push(g), ..d1 }, i + n))
    } else {
        match grammar_match(line, canonical_keywords(), 0) {
            None => Some((d1, i + 1)),
            Some(p) => match invoke_block(p, ls, i, d1) {
                None => None,
                Some((d2, n)) => Some((d2, i + n)),
            },
        }
    }
}

pub proof fn lemma_domain_next(ls: Seq<Seq<char>>, i: int, d: DomainModel)
    requires
        0 <= i < ls.len(),
    ensures
        domain_next(ls, i, d) matches Some((_, i2)) ==> i2 > i,
{
    reveal(domain_next);
    let line = trim(ls[i]);
    let d1 = domain_header(line, d);
    lemma_grammar_walk(ls, i, 1, 1, Seq::empty());
    match grammar_match(line, canonical_keywords(), 0) {
        Some(p) => lemma_invoke_block(p, ls, i, d1),
        None => {},
    }
}

/// Walks the top level of a bluebook from line `i`: the domain, or `None`
/// where a block fails.
pub open spec fn domain_walk(ls: Seq<Seq<char>>, i: int, d: DomainModel) -> Option<DomainModel>
    decreases lines_left(ls, 0, i),
{
    if i < 0 || i >= ls.len() {
        Some(d)
    } else {
        proof { lemma_domain_next(ls, i, d); }
        match domain_next(ls, i, d) {
            None => None,
            Some((d2, i2)) => domain_walk(ls, i2, d2),
        }
    }
}

/// A domain with nothing in it.
pub open spec fn empty_domain() -> DomainModel {
    DomainModel {
        name: Seq::empty(),
        category: None,
        vision: None,
        aggregates: Seq::empty(),
        policies: Seq::empty(),
        fixtures: Seq::empty(),
        entrypoint: None,
        sections: Seq::empty(),
        process_managers: Seq::empty(),
        cadences: Seq::empty(),
        block_grammars: Seq::empty(),
    }
}

/// `parse`'s result for a source: `None` where parsing cannot go on (a
/// rule whose `requires` body is several statements, or a block whose
/// braces cross).
pub open spec fn domain_of(source: Seq<char>) -> Option<DomainModel> {
    domain_walk(source_lines(without_shebang(source)), 0, empty_domain())
}


fn domain_header_exec(line: &Vec<char>, d: &mut Domain)
    ensures
        final(d)@ == domain_header(line@, old(d)@),
{
    if starts_with_str(line, "Hecks.bluebook") {
        match extract_string_chars(line) {
            Some(n) => {
                d.name = string_of(&n);
            },
            None => {},
        }
    }
    if starts_with_str(line, "category") && !starts_with_str(line, "category,") {
        match extract_string_chars(line) {
            Some(c) => {
                d.category = Some(string_of(&c));
            },
            None => {},
        }
    }
    if starts_with_str(line, "vision") {
        match extract_string_chars(line) {
            Some(v) => {
                d.vision = Some(string_of(&v));
            },
            None => {},
        }
    }
    if starts_with_str(line, "entrypoint") {
        match extract_string_chars(line) {
            Some(e) => {
                d.entrypoint = Some(string_of(&e));
            },
            None => {},
        }
    }
}

fn invoke(parser: BlockParser, lines: &Vec<Vec<char>>, i: usize, d: &mut Domain) -> (r: Option<usize>)
    requires
        i < lines.len() < usize::MAX - 3,
    ensures
        match r {
            Some(n) => invoke_block(parser, views(lines@), i as int, old(d)@) == Some((final(d)@, n as int)),
            None => invoke_block(parser, views(lines@), i as int, old(d)@) is None,
        },
        r matches Some(n) ==> 1 <= n <= lines.len() + 3 - i,
{
    match parser {
        BlockParser::Aggregate => match parse_aggregate_chars(lines, i) {
            None => None,
            Some((a, n)) => {
                let mut a = a;
                if chars_of(d.name.as_str()).len() > 0 {
                    a.context = Some(d.name.clone());
                }
                if d.category.is_some() {
                    a.category = d.category.clone();
                }
                d.aggregates.push(a);
                Some(n)
            },
        },
        BlockParser::Section => {
            let (sec, n) = parse_section_chars(lines, i);
            d.sections.push(sec);
            Some(n)
        },
        BlockParser::Policy => {
            let (p, n) = parse_policy_chars(lines, i);
            d.policies.push(p);
            Some(n)
        },
        BlockParser::ProcessManager => {
            let (pm, n) = parse_process_manager_chars(lines, i);
            d.process_managers.push(pm);
            Some(n)
        },
        BlockParser::Cadence => {
            let (c, n) = parse_cadence_chars(lines, i);
            d.cadences.push(c);
            Some(n)
        },
        BlockParser::Fixture => Some(consume_do_block(lines, i)),
    }
}

fn new_domain() -> (d: Domain)
    ensures
        d@ == empty_domain(),
{
    let d = Domain {
        name: String::new(),
        category: None,
        vision: None,
        aggregates: Vec::new(),
        policies: Vec::new(),
        fixtures: Vec::new(),
        entrypoint: None,
        sections: Vec::new(),
        process_managers: Vec::new(),
        cadences: Vec::new(),
        block_grammars: Vec::new(),
    };
    assert(d@ =~= empty_domain());
    d
}

fn domain_step_exec(lines: &Vec<Vec<char>>, i: usize, grammar: &BlockGrammar, d: &mut Domain) -> (r: Option<usize>)
    requires
        i < lines.len() < usize::MAX - 3,
        grammar@.blocks == canonical_keywords(),
    ensures
        match r {
            Some(i2) => domain_next(views(lines@), i as int, old(d)@) == Some((final(d)@, i2 as int)),
            None => domain_next(views(lines@), i as int, old(d)@) is None,
        },
        r matches Some(i2) ==> i2 <= lines.len() + 3,
{
    reveal(domain_next);
    let ghost ls = views(lines@);
    assert(ls[i as int] == lines@[i as int]@);
    let line = trim_exec(&lines[i]);
    domain_header_exec(&line, d);
    if starts_with_str(&line, "block_grammar") {
        let (g, n) = parse_block_grammar_chars(lines, i);
        d.block_grammars.push(g);
        Some(i + n)
    } else {
        match grammar_match_exec(&line, grammar) {
            None => Some(i + 1),
            Some(p) => match invoke(p, lines, i, d) {
                None => None,
                Some(n) => Some(i + n),
            },
        }
    }
}

/// Parse a bluebook source into its domain; `None` where parsing cannot
/// go on (a rule whose `requires` body is several statements, or a block
/// whose braces cross).
pub fn try_parse(source: &str) -> (r: Option<Domain>)
    requires
        source@.len() <= isize::MAX,
    ensures
        opt_view(r) == domain_of(source@),
{
    let s0 = chars_of(source);
    let s = strip_shebang_chars(&s0);
    let lines = source_lines_exec(&s);
    let ghost ls = views(lines@);
    let grammar = BlockGrammar::canonical_bluebook();
    let mut d = new_domain();
    let mut i: usize = 0;
    while i < lines.len()
        invariant
            lines.len() < usize::MAX - 3,
            ls == views(lines@),
            ls == source_lines(without_shebang(source@)),
            grammar@.blocks == canonical_keywords(),
            i <= lines.len() + 3,
            domain_walk(ls, i as int, d@) == domain_walk(ls, 0, empty_domain()),
        decreases lines.len() + 3 - i,
    {
        proof { lemma_domain_next(ls, i as int, d@); }
        match domain_step_exec(&lines, i, &grammar, &mut d) {
            None => {
                return None;
            },
            Some(i2) => {
                i = i2;
            },
        }
    }
    Some(d)
}

/// Parse a bluebook source into its domain: the header directives, and
/// each block its keyword routes to through the canonical grammar
/// (aggregates, sections, policies, process managers, cadences; fixtures
/// are skipped), plus any `block_grammar` blocks it declares.
pub fn parse(source: &str) -> (r: Domain)
    requires
        source@.len() <= isize::MAX,
        domain_of(source@) is Some,
    ensures
        r@ == domain_of(source@)->0,
{
    match try_parse(source) {
        Some(d) => d,
        None => new_domain(),
    }
}

/// A shebang line changes nothing: a source that opens with `#!...` and a
/// newline parses as the rest does (when the rest does not itself open
/// with `#!`).
pub proof fn law_shebang_is_ignored(line: Seq<char>, rest: Seq<char>)
    requires
        !contains_char(line, '\n'),
        !starts_with(rest, "#!"@),
    ensures
        domain_of("#!"@ + line + seq!['\n'] + rest) == domain_of(rest),
{
    reveal_strlit("#!");
    let src = "#!"@ + line + seq!['\n'] + rest;
    let k: int = 2 + line.len() as int;
    lemma_find_char_from(line, '\n', 0);
    assert(src.subrange(0, 2) =~= "#!"@);
    assert(src[k] == '\n');
    assert forall|j: int| 0 <= j < k implies src[j] != '\n' by {
        if j >= 2 {
            assert(src[j] == line[j - 2]);
        }
    }
    lemma_find_char_first(src, '\n', 0, k);
    assert(src.subrange(k + 1, src.len() as int) =~= rest);
}


/// The bracket depth and string state after the characters of `s`: a `"`
/// not preceded by `\` opens or closes a string; outside strings `[`,
/// `{`, `(` open and `]`, `}`, `)` close.
pub open spec fn bracket_state(s: Seq<char>) -> (int, bool)
    decreases s.len(),
{
    if s.len() == 0 {
        (0, false)
    } else {
        let (d, q) = bracket_state(s.drop_last());
        let c = s.last();
        let prev = if s.len() >= 2 {
            s[s.len() - 2]
        } else {
            '\0'
        };
        if c == '"' && prev != '\\' {
            (d, !q)
        } else if (c == '[' || c == '{' || c == '(') && !q {
            (d + 1, q)
        } else if (c == ']' || c == '}' || c == ')') && !q {
            (d - 1, q)
        } else {
            (d, q)
        }
    }
}

/// A line continues on the next physical line: it ends (trailing
/// whitespace aside) in a comma, or leaves a bracket open outside string
/// literals.
pub open spec fn continues_line(s: Seq<char>) -> bool {
    crate::text::ends_with(crate::text::trim_end(s), seq![',']) || bracket_state(s).0 > 0
}

pub fn needs_continuation(s: &str) -> (r: bool)
    requires
        s@.len() <= isize::MAX,
    ensures
        r == continues_line(s@),
{
    let cs = chars_of(s);
    let t = crate::text::trim_end_exec(&cs);
    if t.len() > 0 && t[t.len() - 1] == ',' {
        assert(t@.subrange(t@.len() - 1, t@.len() as int) =~= seq![',']);
        return true;
    }
    assert(!crate::text::ends_with(t@, seq![','])) by {
        if crate::text::ends_with(t@, seq![',']) {
            assert(t@.subrange(t@.len() - 1, t@.len() as int)[0] == t@[t@.len() - 1]);
        }
    }
    let mut depth: i64 = 0;
    let mut in_str = false;
    let mut prev = '\0';
    let mut i: usize = 0;
    while i < cs.len()
        invariant
            i <= cs.len(),
            cs@ == s@,
            cs@.len() <= isize::MAX,
            (depth as int, in_str) == bracket_state(cs@.take(i as int)),
            -(i as int) <= depth <= i,
            prev == (if i >= 1 { cs@[i - 1] } else { '\0' }),
        decreases cs.len() - i,
    {
        let c = cs[i];
        let ghost pre = cs@.take(i as int);
        assert(cs@.take(i + 1).drop_last() =~= pre);
        assert(cs@.take(i + 1).last() == c);
        if i >= 1 {
            assert(cs@.take(i + 1)[i - 1] == cs@[i - 1]);
        }
        if c == '"' && prev != '\\' {
            in_str = !in_str;
        } else if (c == '[' || c == '{' || c == '(') && !in_str {
            depth = depth + 1;
        } else if (c == ']' || c == '}' || c == ')') && !in_str {
            depth = depth - 1;
        }
        prev = c;
        i = i + 1;
    }
    assert(cs@.take(cs.len() as int) =~= cs@);
    depth > 0
}

} // verus!

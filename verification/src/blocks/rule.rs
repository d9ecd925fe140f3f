//! `rule "..." do ... end` blocks: consumed whole, with their `requires`
//! bodies checked to be single boolean expressions.

use vstd::prelude::*;
use crate::text::{append, chars_of, eq, eq_str, find_char, find_char_exec, lines_of, slice, split_char, split_char_exec, starts_with, starts_with_exec, starts_with_str, strs_view, tail, trim, trim_end, trim_end_exec, trim_exec, trim_start, trim_start_exec, views};
use crate::helpers::{ends_with_do_block_chars, opens_do_block};
use crate::blocks::dispatch::{close_brace_from, lemma_close_brace_from, net_count};

verus! {

proof fn lemma_requires_len()
    ensures
        "requires"@.len() == 8,
{
    reveal_strlit("requires");
}

/// `t` is the keyword `kw` alone or starts with `kw` and a space.
pub open spec fn keyword_line(t: Seq<char>, kw: Seq<char>) -> bool {
    t == kw || starts_with(t, kw + seq![' '])
}

fn keyword_line_exec(t: &Vec<char>, kw: &str) -> (r: bool)
    ensures
        r == keyword_line(t@, kw@),
{
    let mut k = chars_of(kw);
    if eq(t, &k) {
        return true;
    }
    k.push(' ');
    assert(k@ =~= kw@ + seq![' ']);
    starts_with_exec(t, &k)
}

/// A leading keyword that opens a Ruby block (`if`, `case`, `def`, ...).
pub open spec fn keyword_opens(t: Seq<char>) -> bool {
    keyword_line(t, "if"@) || keyword_line(t, "unless"@) || keyword_line(t, "case"@)
        || keyword_line(t, "while"@) || keyword_line(t, "until"@) || keyword_line(t, "for"@)
        || starts_with(t, "begin"@) || keyword_line(t, "def"@) || keyword_line(t, "class"@)
        || keyword_line(t, "module"@)
}

/// The blocks a line opens: one for a trailing `do`, one for a leading
/// opener keyword.
pub open spec fn openers(t: Seq<char>) -> int {
    (if opens_do_block(t) { 1int } else { 0int }) + (if keyword_opens(t) { 1int } else { 0int })
}

fn count_rule_openers(t: &Vec<char>) -> (r: i64)
    ensures
        r == openers(t@),
{
    let a: i64 = if ends_with_do_block_chars(t) { 1 } else { 0 };
    let b: i64 = if keyword_line_exec(t, "if") || keyword_line_exec(t, "unless") || keyword_line_exec(t, "case")
        || keyword_line_exec(t, "while") || keyword_line_exec(t, "until") || keyword_line_exec(t, "for")
        || starts_with_str(t, "begin") || keyword_line_exec(t, "def") || keyword_line_exec(t, "class")
        || keyword_line_exec(t, "module") {
        1
    } else {
        0
    };
    a + b
}

/// A body line that makes a `requires` body more than one expression.
pub open spec fn statement_line(raw: Seq<char>) -> bool {
    let l = trim(raw);
    l.len() > 0 && l[0] != '#' && (keyword_line(l, "if"@) || keyword_line(l, "unless"@)
        || keyword_line(l, "case"@) || starts_with(l, "begin"@) || keyword_line(l, "while"@)
        || keyword_line(l, "until"@) || starts_with(l, "else"@) || keyword_line(l, "when"@)
        || keyword_line(l, "for"@) || l == "end"@)
}

fn statement_line_exec(raw: &Vec<char>) -> (r: bool)
    ensures
        r == statement_line(raw@),
{
    let l = trim_exec(raw);
    l.len() > 0 && l[0] != '#' && (keyword_line_exec(&l, "if") || keyword_line_exec(&l, "unless")
        || keyword_line_exec(&l, "case") || starts_with_str(&l, "begin") || keyword_line_exec(&l, "while")
        || keyword_line_exec(&l, "until") || starts_with_str(&l, "else") || keyword_line_exec(&l, "when")
        || keyword_line_exec(&l, "for") || eq_str(&l, "end"))
}

/// Some line of `parts` is a statement line.
pub open spec fn any_statement(parts: Seq<Seq<char>>) -> bool
    decreases parts.len(),
{
    parts.len() > 0 && (any_statement(parts.drop_last()) || statement_line(parts.last()))
}

/// A `;` outside brackets, scanning from `i` at bracket depth `d`.
pub open spec fn top_semicolon(t: Seq<char>, i: int, d: int) -> bool
    decreases t.len() - i,
{
    if i < 0 || i >= t.len() {
        false
    } else if t[i] == '(' || t[i] == '[' || t[i] == '{' {
        top_semicolon(t, i + 1, d + 1)
    } else if t[i] == ')' || t[i] == ']' || t[i] == '}' {
        top_semicolon(t, i + 1, d - 1)
    } else if t[i] == ';' && d == 0 {
        true
    } else {
        top_semicolon(t, i + 1, d)
    }
}

/// A `requires { ... }` body that is not a single boolean expression: a
/// statement keyword opens one of its lines, or a `;` separates two
/// statements.
pub open spec fn multi_statement(body: Seq<char>) -> bool {
    trim(body).len() > 0 && (any_statement(split_char(body, '\n')) || top_semicolon(trim(body), 0, 0))
}

fn multi_statement_exec(body: &Vec<char>) -> (r: bool)
    ensures
        r == multi_statement(body@),
{
    let t = trim_exec(body);
    if t.len() == 0 {
        return false;
    }
    let parts = split_char_exec(body, '\n');
    let ghost ps = views(parts@);
    let mut found = false;
    let mut i: usize = 0;
    assert(ps.take(0) =~= Seq::<Seq<char>>::empty());
    while i < parts.len()
        invariant
            i <= parts.len(),
            ps == views(parts@),
            found == any_statement(ps.take(i as int)),
        decreases parts.len() - i,
    {
        assert(ps.take(i + 1).drop_last() =~= ps.take(i as int));
        assert(ps.take(i + 1).last() == parts@[i as int]@);
        found = found || statement_line_exec(&parts[i]);
        i = i + 1;
    }
    assert(ps.take(parts.len() as int) =~= ps);
    if found {
        return true;
    }
    let mut d: i128 = 0;
    let mut k: usize = 0;
    while k < t.len()
        invariant
            t@ == trim(body@),
            t@.len() > 0,
            !any_statement(split_char(body@, '\n')),
            k <= t.len(),
            -(k as int) <= d <= k as int,
            top_semicolon(t@, k as int, d as int) == top_semicolon(t@, 0, 0),
        decreases t.len() - k,
    {
        let c = t[k];
        if c == '(' || c == '[' || c == '{' {
            d = d + 1;
        } else if c == ')' || c == ']' || c == '}' {
            d = d - 1;
        } else if c == ';' && d == 0 {
            return true;
        }
        k = k + 1;
    }
    false
}

// ---------------------------------------------------------------------
// Reading a `requires { ... }` body
// ---------------------------------------------------------------------

/// The body of a multi-line `requires { ...`, read from line `i` with the
/// braces still open at `depth`; `body` holds the text read so far. Returns
/// the body (trailing whitespace dropped) and the index of its last line.
pub open spec fn body_walk(ls: Seq<Seq<char>>, i: int, depth: int, body: Seq<char>) -> (Seq<char>, int)
    decreases ls.len() - i,
{
    if i < 0 || i >= ls.len() || depth <= 0 {
        (trim_end(body), i - 1)
    } else {
        match close_brace_from(ls[i], 0, depth) {
            Some(k) => (trim_end(body + ls[i].subrange(0, k)), i),
            None => body_walk(ls, i + 1, depth + net_count(ls[i], '{', '}'), body + ls[i] + seq!['\n']),
        }
    }
}

/// The body of the `requires { ... }` that opens on line `s`, and the
/// index of the line holding its closing brace (or the last line).
pub open spec fn requires_body(ls: Seq<Seq<char>>, s: int) -> (Seq<char>, int) {
    let first = ls[s];
    match find_char(first, '{') {
        None => (Seq::empty(), s),
        Some(o) => {
            let ao = first.subrange(o + 1, first.len() as int);
            match close_brace_from(ao, 0, 1) {
                Some(k) => (ao.subrange(0, k), s),
                None => body_walk(ls, s + 1, 1 + net_count(ao, '{', '}'), ao + seq!['\n']),
            }
        },
    }
}

pub proof fn lemma_body_walk(ls: Seq<Seq<char>>, i: int, depth: int, body: Seq<char>)
    requires
        1 <= i <= ls.len(),
    ensures
        i - 1 <= body_walk(ls, i, depth, body).1 < ls.len(),
    decreases ls.len() - i,
{
    if i < ls.len() && depth > 0 {
        match close_brace_from(ls[i], 0, depth) {
            Some(k) => {},
            None => {
                lemma_body_walk(ls, i + 1, depth + net_count(ls[i], '{', '}'), body + ls[i] + seq!['\n']);
            },
        }
    }
}

pub proof fn lemma_requires_body(ls: Seq<Seq<char>>, s: int)
    requires
        0 <= s < ls.len(),
    ensures
        s <= requires_body(ls, s).1 < ls.len(),
{
    let first = ls[s];
    match find_char(first, '{') {
        None => {},
        Some(o) => {
            let ao = first.subrange(o + 1, first.len() as int);
            match close_brace_from(ao, 0, 1) {
                Some(k) => {},
                None => {
                    lemma_body_walk(ls, s + 1, 1 + net_count(ao, '{', '}'), ao + seq!['\n']);
                },
            }
        },
    }
}

pub proof fn lemma_net_count_bound(s: Seq<char>, open: char, close: char)
    ensures
        -s.len() <= net_count(s, open, close) <= s.len(),
    decreases s.len(),
{
    if s.len() > 0 {
        lemma_net_count_bound(s.drop_last(), open, close);
    }
}

fn net_braces(s: &Vec<char>) -> (r: i128)
    ensures
        r == net_count(s@, '{', '}'),
{
    let mut n: i128 = 0;
    let mut i: usize = 0;
    while i < s.len()
        invariant
            i <= s.len(),
            n == net_count(s@.take(i as int), '{', '}'),
            -(i as int) <= n <= i as int,
        decreases s.len() - i,
    {
        assert(s@.take(i + 1).drop_last() =~= s@.take(i as int));
        if s[i] == '{' {
            n = n + 1;
        } else if s[i] == '}' {
            n = n - 1;
        }
        i = i + 1;
    }
    assert(s@.take(s.len() as int) =~= s@);
    n
}

fn close_from_depth(s: &Vec<char>, depth0: u128) -> (r: Option<usize>)
    requires
        0 < depth0,
        depth0 + s.len() <= u128::MAX,
    ensures
        opt_index(r) == close_brace_from(s@, 0, depth0 as int),
        r matches Some(k) ==> k < s.len(),
{
    proof { lemma_close_brace_from(s@, 0, depth0 as int); }
    let mut d: u128 = depth0;
    let mut i: usize = 0;
    while i < s.len()
        invariant
            i <= s.len(),
            0 < d <= depth0 + i,
            depth0 + s.len() <= u128::MAX,
            close_brace_from(s@, i as int, d as int) == close_brace_from(s@, 0, depth0 as int),
        decreases s.len() - i,
    {
        let c = s[i];
        if c == '{' {
            d = d + 1;
        } else if c == '}' {
            d = d - 1;
            if d == 0 {
                return Some(i);
            }
        }
        i = i + 1;
    }
    None
}

/// An optional index as an integer.
pub open spec fn opt_index(r: Option<usize>) -> Option<int> {
    match r {
        Some(k) => Some(k as int),
        None => None,
    }
}

/// The bracket count of `s` taken from the front.
pub proof fn lemma_net_count_front(s: Seq<char>, open: char, close: char)
    requires
        s.len() > 0,
    ensures
        net_count(s, open, close) == net_count(s.drop_first(), open, close) + if s[0] == open {
            1int
        } else if s[0] == close {
            -1int
        } else {
            0int
        },
    decreases s.len(),
{
    if s.len() > 1 {
        lemma_net_count_front(s.drop_last(), open, close);
        assert(s.drop_last().drop_first() =~= s.drop_first().drop_last());
    } else {
        assert(s.drop_first() =~= Seq::<char>::empty());
        assert(s.drop_last() =~= Seq::<char>::empty());
    }
}

/// A brace count that never closes stays open past the end.
pub proof fn lemma_unclosed_stays_open(s: Seq<char>, i: int, d: int)
    requires
        0 <= i <= s.len(),
        0 < d,
        close_brace_from(s, i, d) is None,
    ensures
        d + net_count(s.subrange(i, s.len() as int), '{', '}') > 0,
    decreases s.len() - i,
{
    if i == s.len() {
        assert(s.subrange(i, s.len() as int) =~= Seq::<char>::empty());
    } else {
        let rest = s.subrange(i, s.len() as int);
        lemma_net_count_front(rest, '{', '}');
        assert(rest.drop_first() =~= s.subrange(i + 1, s.len() as int));
        if s[i] == '{' {
            lemma_unclosed_stays_open(s, i + 1, d + 1);
        } else if s[i] == '}' {
            lemma_unclosed_stays_open(s, i + 1, d - 1);
        } else {
            lemma_unclosed_stays_open(s, i + 1, d);
        }
    }
}

proof fn lemma_step(k: int, m: int)
    ensures
        (k + 1) * m == k * m + m,
{
    assert((k + 1) * m == k * m + m) by (nonlinear_arith);
}

proof fn lemma_depth_room(a: int)
    requires
        0 <= a <= usize::MAX,
    ensures
        1 + a * usize::MAX <= u128::MAX,
{
    assert(a * usize::MAX <= usize::MAX * usize::MAX) by (nonlinear_arith)
        requires
            0 <= a <= usize::MAX;
    assert(usize::MAX * usize::MAX <= 0xffff_ffff_ffff_ffff * 0xffff_ffff_ffff_ffff) by (nonlinear_arith)
        requires
            usize::MAX <= 0xffff_ffff_ffff_ffff;
}


fn read_requires_brace_body(lines: &Vec<Vec<char>>, s: usize) -> (r: (Vec<char>, usize))
    requires
        s < lines.len() < usize::MAX,
    ensures
        (r.0@, r.1 as int) == requires_body(views(lines@), s as int),
{
    let ghost ls = views(lines@);
    assert(ls[s as int] == lines@[s as int]@);
    let first = &lines[s];
    let o = match find_char_exec(first, '{') {
        None => return (Vec::new(), s),
        Some(o) => o,
    };
    let ao = tail(first, o + 1);
    match close_from_depth(&ao, 1) {
        Some(k) => return (slice(&ao, 0, k), s),
        None => {},
    }
    proof {
        lemma_unclosed_stays_open(ao@, 0, 1);
        assert(ao@.subrange(0, ao@.len() as int) =~= ao@);
        lemma_net_count_bound(ao@, '{', '}');
    }
    let n = net_braces(&ao);
    let mut depth: u128 = (1 + n) as u128;
    let mut body = ao.clone();
    body.push('\n');
    assert(body@ =~= ao@ + seq!['\n']);
    let mut i: usize = s + 1;
    while i < lines.len() && depth > 0
        invariant
            s < lines.len() < usize::MAX,
            ls == views(lines@),
            s + 1 <= i <= lines.len(),
            0 < depth <= 1 + (i - s) * usize::MAX,
            body_walk(ls, i as int, depth as int, body@) == requires_body(ls, s as int),
        decreases lines.len() - i,
    {
        assert(ls[i as int] == lines@[i as int]@);
        proof {
            lemma_depth_room((i - s + 1) as int);
            lemma_step((i - s) as int, usize::MAX as int);
        }
        match close_from_depth(&lines[i], depth) {
            Some(k) => {
                let piece = slice(&lines[i], 0, k);
                append(&mut body, &piece);
                return (trim_end_exec(&body), i);
            },
            None => {},
        }
        proof {
            lemma_unclosed_stays_open(lines@[i as int]@, 0, depth as int);
            assert(lines@[i as int]@.subrange(0, lines@[i as int]@.len() as int) =~= lines@[i as int]@);
            lemma_net_count_bound(lines@[i as int]@, '{', '}');
        }
        let nb = net_braces(&lines[i]);
        let line_len = lines[i].len();
        let ghost d0 = depth as int;
        assert(nb <= line_len);
        assert(d0 + line_len <= 1 + (i - s + 1) * usize::MAX);
        if nb >= 0 {
            depth = depth + (nb as u128);
        } else {
            depth = depth - ((-nb) as u128);
        }
        assert(depth == d0 + nb);
        let ghost prev = body@;
        append(&mut body, &lines[i]);
        body.push('\n');
        assert(body@ =~= prev + lines@[i as int]@ + seq!['\n']);
        let ghost k: int = i - s;
        i = i + 1;
        proof {
            lemma_step(k, usize::MAX as int);
            assert(i - s == k + 1);
        }
    }
    (trim_end_exec(&body), i - 1)
}

// ---------------------------------------------------------------------
// Rule blocks
// ---------------------------------------------------------------------

/// Whether a trimmed rule-body line opens a `requires { ... }` body.
pub open spec fn opens_requires(line: Seq<char>) -> bool {
    starts_with(line, "requires"@) && {
        let after = trim_start(line.subrange(8, line.len() as int));
        after.len() > 0 && after[0] == '{'
    }
}

/// Walks a rule body from line `at + i` at block depth `depth`: the lines
/// consumed, or `None` when a `requires` body holds more than one
/// statement (a `RuleBodyError`).
pub open spec fn rule_walk(ls: Seq<Seq<char>>, at: int, i: int, depth: int) -> Option<int>
    decreases ls.len() - (at + i),
{
    if at < 0 || i < 0 || at + i >= ls.len() || depth <= 0 {
        Some(i)
    } else {
        let line = trim(ls[at + i]);
        if opens_requires(line) {
            let (body, e) = requires_body(ls, at + i);
            proof { lemma_requires_body(ls, at + i); }
            if multi_statement(body) {
                None
            } else {
                rule_walk(ls, at, e + 1 - at, depth)
            }
        } else {
            let d = depth + openers(line);
            if line == "end"@ {
                if d - 1 == 0 {
                    Some(i + 1)
                } else {
                    rule_walk(ls, at, i + 1, d - 1)
                }
            } else {
                rule_walk(ls, at, i + 1, d)
            }
        }
    }
}

/// `consume_rule_block`'s line count for the rule opening at `ls[at]`; a
/// rule without a `do` block takes one line.
pub open spec fn rule_block(ls: Seq<Seq<char>>, at: int) -> Option<int> {
    if !opens_do_block(trim(ls[at])) {
        Some(1)
    } else {
        rule_walk(ls, at, 1, 1)
    }
}

pub proof fn lemma_rule_walk(ls: Seq<Seq<char>>, at: int, i: int, depth: int)
    requires
        0 <= at,
        1 <= i,
        at + i <= ls.len(),
    ensures
        rule_walk(ls, at, i, depth) matches Some(n) ==> i <= n && at + n <= ls.len(),
    decreases ls.len() - (at + i),
{
    if at + i < ls.len() && depth > 0 {
        let line = trim(ls[at + i]);
        if opens_requires(line) {
            let (body, e) = requires_body(ls, at + i);
            lemma_requires_body(ls, at + i);
            if !multi_statement(body) {
                lemma_rule_walk(ls, at, e + 1 - at, depth);
            }
        } else {
            let d = depth + openers(line);
            if line == "end"@ {
                if d - 1 != 0 {
                    lemma_rule_walk(ls, at, i + 1, d - 1);
                }
            } else {
                lemma_rule_walk(ls, at, i + 1, d);
            }
        }
    }
}

pub proof fn lemma_rule_block(ls: Seq<Seq<char>>, at: int)
    requires
        0 <= at < ls.len(),
    ensures
        rule_block(ls, at) matches Some(n) ==> 1 <= n && at + n <= ls.len(),
{
    if opens_do_block(trim(ls[at])) {
        lemma_rule_walk(ls, at, 1, 1);
    }
}

/// Consumes the rule opening at `lines[at]`; `None` when one of its
/// `requires` bodies holds more than one statement.
pub fn rule_block_exec(lines: &Vec<Vec<char>>, at: usize) -> (r: Option<usize>)
    requires
        at < lines.len() < usize::MAX,
    ensures
        opt_index(r) == rule_block(views(lines@), at as int),
        r matches Some(n) ==> 1 <= n && at + n <= lines.len(),
{
    let ghost ls = views(lines@);
    proof { lemma_requires_len(); lemma_rule_block(ls, at as int); }
    assert(ls[at as int] == lines@[at as int]@);
    let first = trim_exec(&lines[at]);
    if !ends_with_do_block_chars(&first) {
        return Some(1);
    }
    let mut depth: i128 = 1;
    let mut i: usize = 1;
    while i < lines.len() - at && depth > 0
        invariant
            "requires"@.len() == 8,
            at < lines.len() < usize::MAX,
            ls == views(lines@),
            1 <= i <= lines.len() - at,
            1 <= depth <= 1 + 2 * i,
            rule_walk(ls, at as int, i as int, depth as int) == rule_block(ls, at as int),
        decreases lines.len() - at - i,
    {
        assert(ls[at + i] == lines@[at + i]@);
        let line = trim_exec(&lines[at + i]);
        let opens_req = if starts_with_str(&line, "requires") {
            let t0 = tail(&line, 8);
            let after = trim_start_exec(&t0);
            after.len() > 0 && after[0] == '{'
        } else {
            false
        };
        if opens_req {
            proof { lemma_requires_body(ls, (at + i) as int); }
            let (body, e) = read_requires_brace_body(lines, at + i);
            if multi_statement_exec(&body) {
                return None;
            }
            i = e + 1 - at;
        } else {
            depth = depth + (count_rule_openers(&line) as i128);
            if eq_str(&line, "end") {
                depth = depth - 1;
                if depth == 0 {
                    return Some(i + 1);
                }
            }
            i = i + 1;
        }
    }
    Some(i)
}

/// Consume a `rule "..." do ... end` block and return the lines it covers
/// (its closing `end` included). Openers inside the body (`if`, `case`,
/// trailing `do`, ...) are tracked so their `end`s do not close the rule.
/// Every `requires { ... }` body in it must be a single boolean expression
/// (anything else is a `RuleBodyError`).
pub fn consume_rule_block(lines: &[&str]) -> (r: usize)
    requires
        0 < lines.len() < usize::MAX,
        rule_block(strs_view(lines@), 0) is Some,
    ensures
        r == rule_block(strs_view(lines@), 0)->0,
{
    let ls = lines_of(lines);
    match rule_block_exec(&ls, 0) {
        Some(n) => n,
        None => 0,
    }
}

} // verus!

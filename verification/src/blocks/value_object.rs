//! Value-object blocks: attributes, invariants, pure derivations and
//! closed `one_of` member sets.

use vstd::prelude::*;
use crate::text::{Stop, append, chars_of, contains_seq, contains_str, ends_with, ends_with_str, eq_str, find_char, find_char_exec, find_seq, find_str, lemma_find_seq_from, lines_of, opt_string, slice, split_char, split_char_exec, starts_with, starts_with_str, string_of, strings_view, strip_both, strip_both_exec, strip_lead, strip_lead_exec, strip_prefix_rep, strip_prefix_rep_exec, strip_tail, strip_tail_exec, strs_view, tail, trim, trim_exec, views};
use crate::ir::{Derivation, DerivationModel, Invariant, InvariantModel, Step, StepModel, ValueObject, ValueObjectModel, group_views, members_view, opt_view, seq_view};
use crate::helpers::{ends_with_do_block_chars, extract_string_chars, is_shorthand_line_chars, opens_do_block, or_default, parse_shorthand_attribute_chars, shorthand, shorthand_attribute, shorthand_line, string_literal};
use crate::blocks::attribute::{attribute_of, member_pairs, parse_attribute_chars, split_member_pairs};
use crate::blocks::rule::{rule_block, rule_block_exec, lemma_rule_block};

verus! {

broadcast use crate::ir::group_views;

proof fn lemma_keyword_lens()
    ensures
        "derive"@.len() == 6,
        " do "@.len() == 4,
        " do"@.len() == 3,
        "end"@.len() == 3,
{
    reveal_strlit("derive");
    reveal_strlit(" do ");
    reveal_strlit(" do");
    reveal_strlit("end");
}

/// A ` do` found in a line that starts with `derive` lies past the keyword.
proof fn lemma_do_after_derive(line: Seq<char>, pat: Seq<char>)
    requires
        starts_with(line, "derive"@),
        pat.len() > 0,
        pat[0] == ' ',
        find_seq(line, pat) is Some,
    ensures
        find_seq(line, pat)->0 >= 6,
{
    reveal_strlit("derive");
    lemma_find_seq_from(line, pat, 0);
    let k = find_seq(line, pat)->0;
    assert(line.subrange(k, k + pat.len())[0] == pat[0]);
    if k < 6 {
        assert(line.subrange(0, 6)[k] == line[k]);
    }
}

/// In a one-line `... do ... end`, the first ` do ` ends before the `end`.
proof fn lemma_do_before_end(line: Seq<char>)
    requires
        ends_with(line, "end"@),
        find_seq(line, " do "@) is Some,
    ensures
        find_seq(line, " do "@)->0 + 4 <= line.len() - 3,
{
    reveal_strlit("end");
    reveal_strlit(" do ");
    lemma_find_seq_from(line, " do "@, 0);
    let k = find_seq(line, " do "@)->0;
    assert(line.subrange(k, k + 4)[3] == ' ');
    if k + 4 > line.len() - 3 {
        let j = k + 3;
        assert(line.subrange(line.len() - 3, line.len() as int)[j - (line.len() - 3)] == line[j]);
    }
}

// ---------------------------------------------------------------------
// Line pieces
// ---------------------------------------------------------------------

/// `derive :name, ReturnType` (the text between `derive` and ` do`).
pub open spec fn derive_signature(header: Seq<char>) -> Option<(Seq<char>, Seq<char>)> {
    let sig = trim(header);
    match find_char(sig, ',') {
        None => None,
        Some(c) => {
            let name = strip_lead(trim(sig.subrange(0, c)), Stop::Other(':'));
            let rtype = trim(sig.subrange(c + 1, sig.len() as int));
            if name.len() == 0 || rtype.len() == 0 {
                None
            } else {
                Some((name, rtype))
            }
        },
    }
}

fn parse_derive_signature(header: &Vec<char>) -> (r: Option<(Vec<char>, Vec<char>)>)
    ensures
        match r {
            Some((n, t)) => derive_signature(header@) == Some((n@, t@)),
            None => derive_signature(header@) is None,
        },
{
    let sig = trim_exec(header);
    let c = match find_char_exec(&sig, ',') {
        None => return None,
        Some(c) => c,
    };
    let n0 = slice(&sig, 0, c);
    let n1 = trim_exec(&n0);
    let name = strip_lead_exec(&n1, &Stop::Other(':'));
    let t0 = tail(&sig, c + 1);
    let rtype = trim_exec(&t0);
    if name.len() == 0 || rtype.len() == 0 {
        None
    } else {
        Some((name, rtype))
    }
}

/// The trimmed, non-empty pieces.
pub open spec fn trimmed_nonempty(parts: Seq<Seq<char>>) -> Seq<Seq<char>>
    decreases parts.len(),
{
    if parts.len() == 0 {
        Seq::empty()
    } else {
        trimmed_nonempty(parts.drop_last()) + if trim(parts.last()).len() == 0 {
            Seq::empty()
        } else {
            seq![trim(parts.last())]
        }
    }
}

/// A `|a, b| rest` body split into parameter names and the expression.
pub open spec fn block_params_split(body: Seq<char>) -> (Seq<Seq<char>>, Seq<char>) {
    let b = trim(body);
    if b.len() > 0 && b[0] == '|' {
        let rest = b.subrange(1, b.len() as int);
        match find_char(rest, '|') {
            Some(close) => (
                trimmed_nonempty(split_char(rest.subrange(0, close), ',')),
                trim(rest.subrange(close + 1, rest.len() as int)),
            ),
            None => (Seq::empty(), b),
        }
    } else {
        (Seq::empty(), b)
    }
}

fn split_block_params(body: &Vec<char>) -> (r: (Vec<String>, Vec<char>))
    ensures
        (strings_view(r.0@), r.1@) == block_params_split(body@),
{
    let b = trim_exec(body);
    let mut params: Vec<String> = Vec::new();
    if b.len() > 0 && b[0] == '|' {
        let rest = tail(&b, 1);
        match find_char_exec(&rest, '|') {
            Some(close) => {
                let inner = slice(&rest, 0, close);
                let parts = split_char_exec(&inner, ',');
                let ghost ps = views(parts@);
                let mut i: usize = 0;
                assert(ps.take(0) =~= Seq::<Seq<char>>::empty());
                assert(strings_view(params@) =~= Seq::<Seq<char>>::empty());
                while i < parts.len()
                    invariant
                        i <= parts.len(),
                        ps == views(parts@),
                        strings_view(params@) == trimmed_nonempty(ps.take(i as int)),
                    decreases parts.len() - i,
                {
                    assert(ps.take(i + 1).drop_last() =~= ps.take(i as int));
                    assert(ps.take(i + 1).last() == parts@[i as int]@);
                    let t = trim_exec(&parts[i]);
                    if t.len() > 0 {
                        let ghost before = params@;
                        params.push(string_of(&t));
                        assert(strings_view(params@) =~= strings_view(before).push(t@));
                    }
                    i = i + 1;
                }
                assert(ps.take(parts.len() as int) =~= ps);
                let e0 = tail(&rest, close + 1);
                return (params, trim_exec(&e0));
            },
            None => {},
        }
    }
    assert(strings_view(params@) =~= Seq::<Seq<char>>::empty());
    (params, b)
}

/// One `key: value` pair of a `member` line, quotes stripped.
pub open spec fn member_field(pair: Seq<char>) -> Option<(Seq<char>, Seq<char>)> {
    match find_char(pair, ':') {
        None => None,
        Some(c) => {
            let key = strip_both(trim(pair.subrange(0, c)), Stop::Other(':'));
            let raw = trim(pair.subrange(c + 1, pair.len() as int));
            let val = match string_literal(raw) {
                Some(v) => v,
                None => trim(strip_both(raw, Stop::Other(','))),
            };
            if key.len() > 0 && val.len() > 0 {
                Some((key, val))
            } else {
                None
            }
        },
    }
}

/// The fields of the pairs that parse, in declaration order.
pub open spec fn member_fields(pairs: Seq<Seq<char>>) -> Seq<(Seq<char>, Seq<char>)>
    decreases pairs.len(),
{
    if pairs.len() == 0 {
        Seq::empty()
    } else {
        member_fields(pairs.drop_last()) + match member_field(pairs.last()) {
            Some(f) => seq![f],
            None => Seq::empty(),
        }
    }
}

/// The fields of a `member code: "USD", minor_units: 2` line.
pub open spec fn member_of(l: Seq<char>) -> Seq<(Seq<char>, Seq<char>)> {
    let body = strip_tail(strip_lead(strip_prefix_rep(l, "member"@), Stop::Other('(')), Stop::Other(')'));
    member_fields(member_pairs(body))
}

fn member_exec(l: &Vec<char>) -> (r: Vec<(String, String)>)
    ensures
        seq_view(r@) == member_of(l@),
{
    let b0 = strip_prefix_rep_exec(l, "member");
    let b1 = strip_lead_exec(&b0, &Stop::Other('('));
    let body = strip_tail_exec(&b1, &Stop::Other(')'));
    let pairs = split_member_pairs(&body);
    let ghost ps = views(pairs@);
    let mut out: Vec<(String, String)> = Vec::new();
    let mut i: usize = 0;
    assert(ps.take(0) =~= Seq::<Seq<char>>::empty());
    while i < pairs.len()
        invariant
            i <= pairs.len(),
            ps == views(pairs@),
            seq_view(out@) == member_fields(ps.take(i as int)),
        decreases pairs.len() - i,
    {
        assert(ps.take(i + 1).drop_last() =~= ps.take(i as int));
        assert(ps.take(i + 1).last() == pairs@[i as int]@);
        let pair = &pairs[i];
        match find_char_exec(pair, ':') {
            None => {
                assert(seq_view(out@) =~= member_fields(ps.take(i + 1)));
            },
            Some(c) => {
                let k0 = slice(pair, 0, c);
                let k1 = trim_exec(&k0);
                let key = strip_both_exec(&k1, &Stop::Other(':'));
                let r0 = tail(pair, c + 1);
                let raw = trim_exec(&r0);
                let val = match extract_string_chars(&raw) {
                    Some(v) => v,
                    None => {
                        let v0 = strip_both_exec(&raw, &Stop::Other(','));
                        trim_exec(&v0)
                    },
                };
                if key.len() > 0 && val.len() > 0 {
                    out.push((string_of(&key), string_of(&val)));
                }
                assert(seq_view(out@) =~= member_fields(ps.take(i + 1)));
            },
        }
        i = i + 1;
    }
    assert(ps.take(pairs.len() as int) =~= ps);
    out
}

/// The pieces joined by ` && `.
pub open spec fn join_and(parts: Seq<Seq<char>>) -> Seq<char>
    decreases parts.len(),
{
    if parts.len() == 0 {
        Seq::empty()
    } else if parts.len() == 1 {
        parts[0]
    } else {
        join_and(parts.drop_last()) + " && "@ + parts.last()
    }
}

fn join_and_exec(parts: &Vec<Vec<char>>) -> (r: Vec<char>)
    ensures
        r@ == join_and(views(parts@)),
{
    let ghost ps = views(parts@);
    let mut out: Vec<char> = Vec::new();
    let sep = chars_of(" && ");
    let mut i: usize = 0;
    assert(ps.take(0) =~= Seq::<Seq<char>>::empty());
    while i < parts.len()
        invariant
            i <= parts.len(),
            ps == views(parts@),
            sep@ == " && "@,
            out@ == join_and(ps.take(i as int)),
        decreases parts.len() - i,
    {
        assert(ps.take(i + 1).drop_last() =~= ps.take(i as int));
        assert(ps.take(i + 1).last() == parts@[i as int]@);
        if i == 0 {
            out = parts[0].clone();
            assert(out@ =~= parts@[0]@);
        } else {
            let ghost prev = out@;
            append(&mut out, &sep);
            append(&mut out, &parts[i]);
            assert(out@ =~= prev + " && "@ + parts@[i as int]@);
        }
        i = i + 1;
    }
    assert(ps.take(parts.len() as int) =~= ps);
    out
}


// ---------------------------------------------------------------------
// Nested bodies
// ---------------------------------------------------------------------

/// The `member` lines of a `one_of do ... end` body from line `at + j` at
/// depth `d`: the members so far `ms` extended, and the index where the
/// walk stopped (the closing `end`, or the end of input).
pub open spec fn members_walk(
    ls: Seq<Seq<char>>,
    at: int,
    j: int,
    d: int,
    ms: Seq<Seq<(Seq<char>, Seq<char>)>>,
) -> (Seq<Seq<(Seq<char>, Seq<char>)>>, int)
    decreases ls.len() - (at + j),
{
    if at < 0 || j < 0 || at + j >= ls.len() || d <= 0 {
        (ms, j)
    } else {
        let l = trim(ls[at + j]);
        if l == "end"@ {
            if d - 1 == 0 {
                (ms, j)
            } else {
                members_walk(ls, at, j + 1, d - 1, ms)
            }
        } else if opens_do_block(l) {
            members_walk(ls, at, j + 1, d + 1, ms)
        } else if starts_with(l, "member "@) || starts_with(l, "member("@) {
            let f = member_of(l);
            members_walk(ls, at, j + 1, d, if f.len() > 0 { ms.push(f) } else { ms })
        } else {
            members_walk(ls, at, j + 1, d, ms)
        }
    }
}

/// The non-empty body lines of a `do ... end` block from line `at + j` at
/// depth `d` (nested `end`s included), and the index where the walk
/// stopped.
pub open spec fn body_lines(ls: Seq<Seq<char>>, at: int, j: int, d: int, acc: Seq<Seq<char>>) -> (Seq<Seq<char>>, int)
    decreases ls.len() - (at + j),
{
    if at < 0 || j < 0 || at + j >= ls.len() || d <= 0 {
        (acc, j)
    } else {
        let l = trim(ls[at + j]);
        let next = if l.len() > 0 { acc.push(l) } else { acc };
        if l == "end"@ {
            if d - 1 == 0 {
                (acc, j)
            } else {
                body_lines(ls, at, j + 1, d - 1, next)
            }
        } else {
            body_lines(ls, at, j + 1, if opens_do_block(l) { d + 1 } else { d }, next)
        }
    }
}

pub proof fn lemma_members_walk(
    ls: Seq<Seq<char>>,
    at: int,
    j: int,
    d: int,
    ms: Seq<Seq<(Seq<char>, Seq<char>)>>,
)
    requires
        0 <= at,
        0 <= j,
        at + j <= ls.len(),
    ensures
        j <= members_walk(ls, at, j, d, ms).1 <= ls.len() - at,
    decreases ls.len() - (at + j),
{
    if at + j < ls.len() && d > 0 {
        let l = trim(ls[at + j]);
        if l == "end"@ {
            if d - 1 != 0 {
                lemma_members_walk(ls, at, j + 1, d - 1, ms);
            }
        } else if opens_do_block(l) {
            lemma_members_walk(ls, at, j + 1, d + 1, ms);
        } else if starts_with(l, "member "@) || starts_with(l, "member("@) {
            let f = member_of(l);
            lemma_members_walk(ls, at, j + 1, d, if f.len() > 0 { ms.push(f) } else { ms });
        } else {
            lemma_members_walk(ls, at, j + 1, d, ms);
        }
    }
}

pub proof fn lemma_body_lines(ls: Seq<Seq<char>>, at: int, j: int, d: int, acc: Seq<Seq<char>>)
    requires
        0 <= at,
        0 <= j,
        at + j <= ls.len(),
    ensures
        j <= body_lines(ls, at, j, d, acc).1 <= ls.len() - at,
    decreases ls.len() - (at + j),
{
    if at + j < ls.len() && d > 0 {
        let l = trim(ls[at + j]);
        let next = if l.len() > 0 { acc.push(l) } else { acc };
        if l == "end"@ {
            if d - 1 != 0 {
                lemma_body_lines(ls, at, j + 1, d - 1, next);
            }
        } else {
            lemma_body_lines(ls, at, j + 1, if opens_do_block(l) { d + 1 } else { d }, next);
        }
    }
}

fn members_walk_exec(lines: &Vec<Vec<char>>, at: usize, j0: usize, ms0: Vec<Vec<(String, String)>>) -> (r: (
    Vec<Vec<(String, String)>>,
    usize,
))
    requires
        at + j0 <= lines.len() < usize::MAX,
    ensures
        (members_view(r.0@), r.1 as int) == members_walk(views(lines@), at as int, j0 as int, 1, members_view(ms0@)),
        j0 <= r.1 <= lines.len() - at,
{
    let ghost ls = views(lines@);
    let ghost m0 = members_view(ms0@);
    let mut ms = ms0;
    proof { lemma_members_walk(ls, at as int, j0 as int, 1, m0); }
    let mut j = j0;
    let mut d: usize = 1;
    while j < lines.len() - at && d > 0
        invariant
            at + j0 <= lines.len() < usize::MAX,
            ls == views(lines@),
            m0 == members_view(ms0@),
            j0 <= j <= lines.len() - at,
            d <= 1 + j - j0,
            members_walk(ls, at as int, j as int, d as int, members_view(ms@))
                == members_walk(ls, at as int, j0 as int, 1, m0),
        decreases lines.len() - at - j,
    {
        assert(ls[at + j] == lines@[at + j]@);
        let l = trim_exec(&lines[at + j]);
        let is_end = eq_str(&l, "end");
        if is_end && d == 1 {
            return (ms, j);
        }
        if is_end {
            d = d - 1;
        } else if ends_with_do_block_chars(&l) {
            d = d + 1;
        } else if starts_with_str(&l, "member ") || starts_with_str(&l, "member(") {
            let f = member_exec(&l);
            if f.len() > 0 {
                let ghost before = members_view(ms@);
                ms.push(f);
                assert(members_view(ms@) =~= before.push(seq_view(f@)));
            }
        }
        j = j + 1;
    }
    (ms, j)
}

fn body_lines_exec(lines: &Vec<Vec<char>>, at: usize, j0: usize) -> (r: (Vec<Vec<char>>, usize))
    requires
        at + j0 <= lines.len() < usize::MAX,
    ensures
        (views(r.0@), r.1 as int) == body_lines(views(lines@), at as int, j0 as int, 1, Seq::empty()),
        j0 <= r.1 <= lines.len() - at,
{
    let ghost ls = views(lines@);
    proof { lemma_body_lines(ls, at as int, j0 as int, 1, Seq::empty()); }
    let mut body: Vec<Vec<char>> = Vec::new();
    assert(views(body@) =~= Seq::<Seq<char>>::empty());
    let mut j = j0;
    let mut d: usize = 1;
    while j < lines.len() - at && d > 0
        invariant
            at + j0 <= lines.len() < usize::MAX,
            ls == views(lines@),
            j0 <= j <= lines.len() - at,
            d <= 1 + j - j0,
            body_lines(ls, at as int, j as int, d as int, views(body@))
                == body_lines(ls, at as int, j0 as int, 1, Seq::empty()),
        decreases lines.len() - at - j,
    {
        assert(ls[at + j] == lines@[at + j]@);
        let l = trim_exec(&lines[at + j]);
        let is_end = eq_str(&l, "end");
        if is_end && d == 1 {
            return (body, j);
        }
        if is_end {
            d = d - 1;
        } else if ends_with_do_block_chars(&l) {
            d = d + 1;
        }
        if l.len() > 0 {
            let ghost before = views(body@);
            body.push(l);
            assert(views(body@) =~= before.push(l@));
        }
        j = j + 1;
    }
    (body, j)
}


// ---------------------------------------------------------------------
// Value objects
// ---------------------------------------------------------------------

/// A one-line `X ... do ... end`.
pub open spec fn inline_do(line: Seq<char>) -> bool {
    contains_seq(line, " do "@) && ends_with(line, "end"@)
}

/// The expression of a one-line `... do <expr> end`.
pub open spec fn inline_body(line: Seq<char>) -> Seq<char> {
    trim(line.subrange(find_seq(line, " do "@)->0 + 4, line.len() - 3))
}

/// A one-line `invariant "name" do <expr> end`.
pub open spec fn inline_invariant(line: Seq<char>) -> Option<InvariantModel> {
    let name = or_default(string_literal(line), Seq::empty());
    let expr = inline_body(line);
    if name.len() > 0 && expr.len() > 0 {
        Some(InvariantModel { name, expression: expr })
    } else {
        None
    }
}

/// A one-line `derive :name, Type do [|params|] <expr> end`.
pub open spec fn inline_derivation(line: Seq<char>) -> Option<DerivationModel> {
    match derive_signature(line.subrange(6, find_seq(line, " do "@)->0)) {
        None => None,
        Some((name, rtype)) => {
            let (params, expr) = block_params_split(inline_body(line));
            if expr.len() > 0 {
                Some(DerivationModel { name, return_type: rtype, params, expression: expr })
            } else {
                None
            }
        },
    }
}

/// Where the header of a multi-line `derive` ends: its first ` do`.
pub open spec fn derive_do(line: Seq<char>) -> int {
    match find_seq(line, " do"@) {
        Some(p) => p,
        None => line.len() as int,
    }
}

/// The parameters after the ` do` of a multi-line `derive` opener.
pub open spec fn derive_params(line: Seq<char>) -> Seq<Seq<char>> {
    let p = derive_do(line);
    if p + 3 <= line.len() {
        block_params_split(trim(line.subrange(p + 3, line.len() as int))).0
    } else {
        Seq::empty()
    }
}

/// The value object after a depth-one line that is not a nested block:
/// a description, an attribute, or a shorthand attribute.
pub open spec fn vo_tail(line: Seq<char>, vo: ValueObjectModel) -> ValueObjectModel {
    let v1 = if starts_with(line, "description"@) {
        ValueObjectModel { description: string_literal(line), ..vo }
    } else {
        vo
    };
    if starts_with(line, "attribute"@) {
        match attribute_of(line) {
            Some(a) => ValueObjectModel { attributes: v1.attributes.push(a), ..v1 },
            None => v1,
        }
    } else if shorthand_line(line) && !starts_with(line, "reference_to("@) {
        match shorthand_attribute(line) {
            Some(a) => ValueObjectModel { attributes: v1.attributes.push(a), ..v1 },
            None => v1,
        }
    } else {
        v1
    }
}

/// One step of a value object's body at line `at + i`, depth `depth`.
pub open spec fn vo_next(ls: Seq<Seq<char>>, at: int, i: int, depth: int, vo: ValueObjectModel) -> StepModel<ValueObjectModel> {
    let line = trim(ls[at + i]);
    if line == "end"@ {
        if depth - 1 == 0 {
            StepModel::Done(vo, i + 1)
        } else {
            StepModel::Next(i + 1, depth - 1, if depth - 1 == 1 { vo_tail(line, vo) } else { vo })
        }
    } else if depth == 1 && (starts_with(line, "rule "@) || starts_with(line, "rule\t"@)) {
        match rule_block(ls, at + i) {
            None => StepModel::Fail,
            Some(n) => StepModel::Next(i + n, depth, vo),
        }
    } else if depth == 1 && starts_with(line, "one_of do"@) {
        let (ms, j) = members_walk(ls, at, i + 1, 1, vo.members);
        StepModel::Next(j + 1, depth, ValueObjectModel { members: ms, ..vo })
    } else if depth == 1 && starts_with(line, "invariant"@) && inline_do(line) {
        let v2 = match inline_invariant(line) {
            Some(inv) => ValueObjectModel { invariants: vo.invariants.push(inv), ..vo },
            None => vo,
        };
        StepModel::Next(i + 1, depth, vo_tail(line, v2))
    } else if depth == 1 && starts_with(line, "invariant"@) && opens_do_block(line) {
        let name = or_default(string_literal(line), Seq::empty());
        let (body, j) = body_lines(ls, at, i + 1, 1, Seq::empty());
        let v2 = if name.len() > 0 && body.len() > 0 {
            ValueObjectModel {
                invariants: vo.invariants.push(InvariantModel { name, expression: join_and(body) }),
                ..vo
            }
        } else {
            vo
        };
        StepModel::Next(j + 1, depth, v2)
    } else if depth == 1 && starts_with(line, "derive"@) && inline_do(line) {
        let v2 = match inline_derivation(line) {
            Some(dv) => ValueObjectModel { derivations: vo.derivations.push(dv), ..vo },
            None => vo,
        };
        StepModel::Next(i + 1, depth, vo_tail(line, v2))
    } else if depth == 1 && starts_with(line, "derive"@) && opens_do_block(line) {
        let (body, j) = body_lines(ls, at, i + 1, 1, Seq::empty());
        let v2 = match derive_signature(line.subrange(6, derive_do(line))) {
            Some((name, rtype)) => if body.len() > 0 {
                ValueObjectModel {
                    derivations: vo.derivations.push(
                        DerivationModel { name, return_type: rtype, params: derive_params(line), expression: join_and(body) },
                    ),
                    ..vo
                }
            } else {
                vo
            },
            None => vo,
        };
        StepModel::Next(j + 1, depth, v2)
    } else if opens_do_block(line) {
        StepModel::Next(i + 1, depth + 1, vo)
    } else {
        StepModel::Next(i + 1, depth, if depth == 1 { vo_tail(line, vo) } else { vo })
    }
}

pub proof fn lemma_vo_next(ls: Seq<Seq<char>>, at: int, i: int, depth: int, vo: ValueObjectModel)
    requires
        0 <= at,
        0 <= i,
        at + i < ls.len(),
        depth > 0,
    ensures
        vo_next(ls, at, i, depth, vo) matches StepModel::Next(i2, d2, _) ==> i < i2 <= ls.len() + 1 - at && 0 <= d2
            <= depth + 1,
{
    lemma_rule_block(ls, at + i);
    lemma_members_walk(ls, at, i + 1, 1, vo.members);
    lemma_body_lines(ls, at, i + 1, 1, Seq::empty());
}

/// Walks a value object's body from line `at + i` at depth `depth`: the
/// model and lines consumed, or `None` when a nested rule's `requires`
/// body holds more than one statement.
pub open spec fn vo_walk(ls: Seq<Seq<char>>, at: int, i: int, depth: int, vo: ValueObjectModel) -> Option<(ValueObjectModel, int)>
    decreases ls.len() + 1 - (at + i),
{
    if at < 0 || i < 0 || at + i >= ls.len() || depth <= 0 {
        Some((vo, i + 1))
    } else {
        proof { lemma_vo_next(ls, at, i, depth, vo); }
        match vo_next(ls, at, i, depth, vo) {
            StepModel::Done(v, n) => Some((v, n)),
            StepModel::Fail => None,
            StepModel::Next(i2, d2, v2) => vo_walk(ls, at, i2, d2, v2),
        }
    }
}

/// `parse_value_object`'s result for the block opening at `ls[at]`.
pub open spec fn value_object_block(ls: Seq<Seq<char>>, at: int) -> Option<(ValueObjectModel, int)> {
    vo_walk(
        ls,
        at,
        1,
        1,
        ValueObjectModel {
            name: or_default(string_literal(trim(ls[at])), Seq::empty()),
            description: None,
            attributes: Seq::empty(),
            invariants: Seq::empty(),
            derivations: Seq::empty(),
            members: Seq::empty(),
        },
    )
}


fn vo_tail_exec(line: &Vec<char>, vo: &mut ValueObject)
    ensures
        final(vo)@ == vo_tail(line@, old(vo)@),
{
    if starts_with_str(line, "description") {
        vo.description = opt_string(&extract_string_chars(line));
    }
    if starts_with_str(line, "attribute") {
        match parse_attribute_chars(line) {
            Some(a) => {
                vo.attributes.push(a);
            },
            None => {},
        }
    } else if is_shorthand_line_chars(line) && !starts_with_str(line, "reference_to(") {
        match parse_shorthand_attribute_chars(line) {
            Some(a) => {
                vo.attributes.push(a);
            },
            None => {},
        }
    }
}

fn inline_do_exec(line: &Vec<char>) -> (r: bool)
    ensures
        r == inline_do(line@),
{
    contains_str(line, " do ") && ends_with_str(line, "end")
}

fn inline_body_exec(line: &Vec<char>) -> (r: Vec<char>)
    requires
        inline_do(line@),
    ensures
        r@ == inline_body(line@),
{
    proof {
        lemma_keyword_lens();
        lemma_do_before_end(line@);
    }
    let p = match find_str(line, " do ") {
        Some(p) => p,
        None => 0,
    };
    let b = slice(line, p + 4, line.len() - 3);
    trim_exec(&b)
}

fn inline_invariant_exec(line: &Vec<char>) -> (r: Option<Invariant>)
    requires
        inline_do(line@),
    ensures
        opt_view(r) == inline_invariant(line@),
{
    let name = match extract_string_chars(line) {
        Some(n) => n,
        None => Vec::new(),
    };
    let expr = inline_body_exec(line);
    if name.len() > 0 && expr.len() > 0 {
        Some(Invariant { name: string_of(&name), expression: string_of(&expr) })
    } else {
        None
    }
}

fn inline_derivation_exec(line: &Vec<char>) -> (r: Option<Derivation>)
    requires
        starts_with(line@, "derive"@),
        inline_do(line@),
    ensures
        opt_view(r) == inline_derivation(line@),
{
    proof {
        lemma_keyword_lens();
        reveal_strlit(" do ");
        lemma_do_after_derive(line@, " do "@);
        lemma_find_seq_from(line@, " do "@, 0);
    }
    let p = match find_str(line, " do ") {
        Some(p) => p,
        None => 6,
    };
    let header = slice(line, 6, p);
    match parse_derive_signature(&header) {
        None => None,
        Some((name, rtype)) => {
            let raw = inline_body_exec(line);
            let (params, expr) = split_block_params(&raw);
            if expr.len() > 0 {
                Some(
                    Derivation {
                        name: string_of(&name),
                        return_type: string_of(&rtype),
                        params,
                        expression: string_of(&expr),
                    },
                )
            } else {
                None
            }
        },
    }
}

fn derive_header_exec(line: &Vec<char>) -> (r: (Vec<char>, Vec<String>))
    requires
        starts_with(line@, "derive"@),
    ensures
        r.0@ == line@.subrange(6, derive_do(line@)),
        strings_view(r.1@) == derive_params(line@),
        6 <= derive_do(line@) <= line@.len(),
{
    proof {
        lemma_keyword_lens();
        reveal_strlit(" do");
        if find_seq(line@, " do"@) is Some {
            lemma_do_after_derive(line@, " do"@);
        }
        lemma_find_seq_from(line@, " do"@, 0);
    }
    let p = match find_str(line, " do") {
        Some(p) => p,
        None => line.len(),
    };
    let header = slice(line, 6, p);
    if line.len() >= 3 && p <= line.len() - 3 {
        let a0 = tail(line, p + 3);
        let after = trim_exec(&a0);
        let (params, _) = split_block_params(&after);
        (header, params)
    } else {
        let params: Vec<String> = Vec::new();
        assert(strings_view(params@) =~= Seq::<Seq<char>>::empty());
        (header, params)
    }
}

fn vo_step_exec(lines: &Vec<Vec<char>>, at: usize, i: usize, depth: usize, vo0: ValueObject) -> (r: Step<ValueObject>)
    requires
        at + i < lines.len() < usize::MAX,
        0 < depth <= i,
    ensures
        r@ == vo_next(views(lines@), at as int, i as int, depth as int, vo0@),
{
    let ghost ls = views(lines@);
    let mut vo = vo0;
    assert(ls[at + i] == lines@[at + i]@);
    let line = trim_exec(&lines[at + i]);
    if eq_str(&line, "end") {
        if depth - 1 == 0 {
            return Step::Done(vo, i + 1);
        }
        if depth - 1 == 1 {
            vo_tail_exec(&line, &mut vo);
        }
        Step::Next(i + 1, depth - 1, vo)
    } else if depth == 1 && (starts_with_str(&line, "rule ") || starts_with_str(&line, "rule\t")) {
        match rule_block_exec(lines, at + i) {
            None => Step::Fail,
            Some(n) => Step::Next(i + n, depth, vo),
        }
    } else if depth == 1 && starts_with_str(&line, "one_of do") {
        let mut ms: Vec<Vec<(String, String)>> = Vec::new();
        std::mem::swap(&mut ms, &mut vo.members);
        let (ms2, j) = members_walk_exec(lines, at, i + 1, ms);
        vo.members = ms2;
        Step::Next(j + 1, depth, vo)
    } else if depth == 1 && starts_with_str(&line, "invariant") && inline_do_exec(&line) {
        match inline_invariant_exec(&line) {
            Some(inv) => {
                vo.invariants.push(inv);
            },
            None => {},
        }
        vo_tail_exec(&line, &mut vo);
        Step::Next(i + 1, depth, vo)
    } else if depth == 1 && starts_with_str(&line, "invariant") && ends_with_do_block_chars(&line) {
        let name = match extract_string_chars(&line) {
            Some(n) => n,
            None => Vec::new(),
        };
        let (body, j) = body_lines_exec(lines, at, i + 1);
        if name.len() > 0 && body.len() > 0 {
            let expr = join_and_exec(&body);
            vo.invariants.push(Invariant { name: string_of(&name), expression: string_of(&expr) });
        }
        Step::Next(j + 1, depth, vo)
    } else if depth == 1 && starts_with_str(&line, "derive") && inline_do_exec(&line) {
        match inline_derivation_exec(&line) {
            Some(dv) => {
                vo.derivations.push(dv);
            },
            None => {},
        }
        vo_tail_exec(&line, &mut vo);
        Step::Next(i + 1, depth, vo)
    } else if depth == 1 && starts_with_str(&line, "derive") && ends_with_do_block_chars(&line) {
        let (body, j) = body_lines_exec(lines, at, i + 1);
        let (header, params) = derive_header_exec(&line);
        match parse_derive_signature(&header) {
            Some((name, rtype)) => {
                if body.len() > 0 {
                    let expr = join_and_exec(&body);
                    vo.derivations.push(
                        Derivation {
                            name: string_of(&name),
                            return_type: string_of(&rtype),
                            params,
                            expression: string_of(&expr),
                        },
                    );
                }
            },
            None => {},
        }
        Step::Next(j + 1, depth, vo)
    } else if ends_with_do_block_chars(&line) {
        Step::Next(i + 1, depth + 1, vo)
    } else {
        if depth == 1 {
            vo_tail_exec(&line, &mut vo);
        }
        Step::Next(i + 1, depth, vo)
    }
}

pub fn parse_value_object_chars(lines: &Vec<Vec<char>>, at: usize) -> (r: Option<(ValueObject, usize)>)
    requires
        at < lines.len() < usize::MAX - 1,
    ensures
        match r {
            Some((vo, n)) => value_object_block(views(lines@), at as int) == Some((vo@, n as int)),
            None => value_object_block(views(lines@), at as int) is None,
        },
        r matches Some((_, n)) ==> 2 <= n <= lines.len() + 2 - at,
{
    let ghost ls = views(lines@);
    let first = trim_exec(&lines[at]);
    assert(ls[at as int] == lines@[at as int]@);
    let name = match extract_string_chars(&first) {
        Some(n) => n,
        None => Vec::new(),
    };
    let mut vo = ValueObject {
        name: string_of(&name),
        description: None,
        attributes: Vec::new(),
        invariants: Vec::new(),
        derivations: Vec::new(),
        members: Vec::new(),
    };
    assert(members_view(vo.members@) =~= Seq::<Seq<(Seq<char>, Seq<char>)>>::empty());
    let mut i: usize = 1;
    let mut depth: usize = 1;
    while i < lines.len() - at && depth > 0
        invariant
            at < lines.len() < usize::MAX - 1,
            ls == views(lines@),
            1 <= i <= lines.len() + 1 - at,
            depth <= i,
            vo_walk(ls, at as int, i as int, depth as int, vo@) == value_object_block(ls, at as int),
        decreases lines.len() + 1 - at - i,
    {
        proof { lemma_vo_next(ls, at as int, i as int, depth as int, vo@); }
        match vo_step_exec(lines, at, i, depth, vo) {
            Step::Done(v, n) => {
                return Some((v, n));
            },
            Step::Fail => {
                return None;
            },
            Step::Next(i2, d2, v2) => {
                i = i2;
                depth = d2;
                vo = v2;
            },
        }
    }
    Some((vo, i + 1))
}

/// Parse a `value_object "Name" do ... end` block: description,
/// attributes, invariants (one-line or block form), pure derivations and
/// `one_of` member sets; nested `rule` blocks are consumed whole. Returns
/// the value object and the lines consumed.
pub fn parse_value_object(lines: &[&str]) -> (r: (ValueObject, usize))
    requires
        0 < lines.len() < usize::MAX - 1,
        value_object_block(strs_view(lines@), 0) is Some,
    ensures
        value_object_block(strs_view(lines@), 0) == Some((r.0@, r.1 as int)),
{
    let ls = lines_of(lines);
    match parse_value_object_chars(&ls, 0) {
        Some(r) => r,
        None => (
            ValueObject {
                name: String::new(),
                description: None,
                attributes: Vec::new(),
                invariants: Vec::new(),
                derivations: Vec::new(),
                members: Vec::new(),
            },
            0,
        ),
    }
}


pub proof fn lemma_vo_walk(ls: Seq<Seq<char>>, at: int, i: int, depth: int, vo: ValueObjectModel)
    requires
        0 <= at,
        0 <= i,
    ensures
        vo_walk(ls, at, i, depth, vo) matches Some((_, n)) ==> n >= i + 1,
    decreases ls.len() + 1 - (at + i),
{
    if at + i < ls.len() && depth > 0 {
        lemma_vo_next(ls, at, i, depth, vo);
        match vo_next(ls, at, i, depth, vo) {
            StepModel::Next(i2, d2, v2) => lemma_vo_walk(ls, at, i2, d2, v2),
            _ => {},
        }
    }
}

/// A value object block that parses takes at least two lines' worth.
pub proof fn lemma_value_object_block(ls: Seq<Seq<char>>, at: int)
    requires
        0 <= at < ls.len(),
    ensures
        value_object_block(ls, at) matches Some((_, n)) ==> n >= 2,
{
    lemma_vo_walk(
        ls,
        at,
        1,
        1,
        ValueObjectModel {
            name: or_default(string_literal(trim(ls[at])), Seq::empty()),
            description: None,
            attributes: Seq::empty(),
            invariants: Seq::empty(),
            derivations: Seq::empty(),
            members: Seq::empty(),
        },
    );
}

} // verus!

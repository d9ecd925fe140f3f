//! Aggregate views (`view "name" do show :a, :b end`) and aggregate
//! invariants (`invariant "name" do holds_when { ... } end`).

use vstd::prelude::*;
use crate::text::{Stop, append, ends_with, ends_with_str, eq_str, lines_of, split_char, split_char_exec, starts_with, starts_with_str, string_of, strings_view, strip_lead, strip_lead_exec, strip_tail, strip_tail_exec, strs_view, tail, trim, trim_end, trim_end_exec, trim_exec, views};
use crate::ir::{Aggregate, AggregateView, AggregateViewModel, Invariant, InvariantModel, group_views, opt_view, seq_view};
use crate::helpers::{block_of, block_of_exec, block_panics, block_panics_exec, ends_with_do_block_chars, extract_string_chars, nonempty, opens_do_block, or_default, string_literal};

verus! {

broadcast use crate::ir::group_views;

proof fn lemma_keyword_lens()
    ensures
        "show"@.len() == 4,
        "plus"@.len() == 4,
{
    reveal_strlit("show");
    reveal_strlit("plus");
}

/// The field a `:symbol` part of a `show` / `plus` list names; kwargs
/// (`as:`) and other tokens name none.
pub open spec fn view_field(raw: Seq<char>) -> Option<Seq<char>> {
    let part = trim(strip_tail(trim(raw), Stop::Other(',')));
    if part.len() == 0 || part.last() == ':' || part[0] != ':' {
        None
    } else {
        nonempty(strip_lead(part, Stop::Other(':')))
    }
}

/// The fields the parts name, in order.
pub open spec fn view_fields(parts: Seq<Seq<char>>) -> Seq<Seq<char>>
    decreases parts.len(),
{
    if parts.len() == 0 {
        Seq::empty()
    } else {
        view_fields(parts.drop_last()) + match view_field(parts.last()) {
            Some(f) => seq![f],
            None => Seq::empty(),
        }
    }
}

/// A `show` list glued with its continuation lines while it ends in a
/// comma; with the index of the last line taken.
pub open spec fn show_glue(ls: Seq<Seq<char>>, at: int, i: int, buf: Seq<char>) -> (Seq<char>, int)
    decreases ls.len() - (at + i),
{
    if ends_with(trim_end(buf), ","@) && 0 <= at && 0 <= i && at + i + 1 < ls.len() {
        show_glue(ls, at, i + 1, buf + seq![' '] + trim(ls[at + i + 1]))
    } else {
        (buf, i)
    }
}

pub proof fn lemma_show_glue(ls: Seq<Seq<char>>, at: int, i: int, buf: Seq<char>)
    ensures
        show_glue(ls, at, i, buf).1 >= i,
        0 <= at && 0 <= i && at + i < ls.len() ==> at + show_glue(ls, at, i, buf).1 < ls.len(),
    decreases ls.len() - (at + i),
{
    if ends_with(trim_end(buf), ","@) && 0 <= at && 0 <= i && at + i + 1 < ls.len() {
        lemma_show_glue(ls, at, i + 1, buf + seq![' '] + trim(ls[at + i + 1]));
    }
}

/// Walks a view's body from line `at + i` at depth `depth`.
pub open spec fn view_walk(ls: Seq<Seq<char>>, at: int, i: int, depth: int, v: AggregateViewModel) -> (AggregateViewModel, int)
    decreases ls.len() - (at + i),
{
    if at < 0 || i < 0 || at + i >= ls.len() || depth <= 0 {
        (v, i + 1)
    } else {
        let line = trim(ls[at + i]);
        if line == "end"@ {
            if depth - 1 == 0 {
                (v, i + 1)
            } else {
                view_walk(ls, at, i + 1, depth - 1, v)
            }
        } else if depth == 1 && (line == "show_all"@ || starts_with(line, "show_all "@)) {
            view_walk(ls, at, i + 1, depth, AggregateViewModel { show_all: true, ..v })
        } else if depth == 1 && (starts_with(line, "show"@) || starts_with(line, "plus"@)) {
            proof { lemma_show_glue(ls, at, i, line.subrange(4, line.len() as int)); }
            let (buf, k) = show_glue(ls, at, i, line.subrange(4, line.len() as int));
            view_walk(ls, at, k + 1, depth, AggregateViewModel { fields: v.fields + view_fields(split_char(buf, ',')), ..v })
        } else if opens_do_block(line) {
            view_walk(ls, at, i + 1, depth + 1, v)
        } else {
            view_walk(ls, at, i + 1, depth, v)
        }
    }
}

/// `parse_view`'s result for the block opening at `ls[at]`.
pub open spec fn view_block(ls: Seq<Seq<char>>, at: int) -> (AggregateViewModel, int) {
    view_walk(
        ls,
        at,
        1,
        1,
        AggregateViewModel {
            name: or_default(string_literal(trim(ls[at])), Seq::empty()),
            show_all: false,
            fields: Seq::empty(),
        },
    )
}

fn absorb_view_fields(tail: &Vec<char>, fields: &mut Vec<String>)
    ensures
        strings_view(final(fields)@) == strings_view(old(fields)@) + view_fields(split_char(tail@, ',')),
{
    let parts = split_char_exec(tail, ',');
    let ghost ps = views(parts@);
    let ghost start = strings_view(fields@);
    let mut i: usize = 0;
    assert(ps.take(0) =~= Seq::<Seq<char>>::empty());
    assert(strings_view(fields@) =~= start + view_fields(ps.take(0)));
    while i < parts.len()
        invariant
            i <= parts.len(),
            ps == views(parts@),
            ps == split_char(tail@, ','),
            strings_view(fields@) == start + view_fields(ps.take(i as int)),
        decreases parts.len() - i,
    {
        assert(ps.take(i + 1).drop_last() =~= ps.take(i as int));
        assert(ps.take(i + 1).last() == parts@[i as int]@);
        let t0 = trim_exec(&parts[i]);
        let t1 = strip_tail_exec(&t0, &Stop::Other(','));
        let part = trim_exec(&t1);
        let ghost before = strings_view(fields@);
        if part.len() > 0 && part[part.len() - 1] != ':' && part[0] == ':' {
            let name = strip_lead_exec(&part, &Stop::Other(':'));
            if name.len() > 0 {
                fields.push(string_of(&name));
                assert(strings_view(fields@) =~= before.push(name@));
            }
        }
        assert(strings_view(fields@) =~= start + view_fields(ps.take(i + 1)));
        i = i + 1;
    }
    assert(ps.take(parts.len() as int) =~= ps);
}

fn show_glue_exec(lines: &Vec<Vec<char>>, at: usize, i: usize, first: Vec<char>) -> (r: (Vec<char>, usize))
    requires
        at + i < lines.len(),
    ensures
        (r.0@, r.1 as int) == show_glue(views(lines@), at as int, i as int, first@),
        i <= r.1,
        at + r.1 < lines.len(),
{
    let ghost ls = views(lines@);
    proof { lemma_show_glue(ls, at as int, i as int, first@); }
    let mut buf = first;
    let mut k = i;
    loop
        invariant
            at + k < lines.len(),
            i <= k,
            ls == views(lines@),
            show_glue(ls, at as int, k as int, buf@) == show_glue(ls, at as int, i as int, first@),
        decreases lines.len() - at - k,
    {
        let te = trim_end_exec(&buf);
        if !(ends_with_str(&te, ",") && k + 1 < lines.len() - at) {
            return (buf, k);
        }
        let ghost prev = buf@;
        k = k + 1;
        assert(ls[at + k] == lines@[at + k]@);
        let t = trim_exec(&lines[at + k]);
        buf.push(' ');
        append(&mut buf, &t);
        assert(buf@ =~= prev + seq![' '] + t@);
    }
}

pub fn parse_view_chars(lines: &Vec<Vec<char>>, at: usize) -> (r: (AggregateView, usize))
    requires
        at < lines.len() < usize::MAX,
    ensures
        (r.0@, r.1 as int) == view_block(views(lines@), at as int),
        2 <= r.1 <= lines.len() + 1 - at,
{
    proof { lemma_keyword_lens(); }
    let ghost ls = views(lines@);
    let first = trim_exec(&lines[at]);
    assert(ls[at as int] == lines@[at as int]@);
    let name = match extract_string_chars(&first) {
        Some(n) => n,
        None => Vec::new(),
    };
    let mut v = AggregateView { name: string_of(&name), show_all: false, fields: Vec::new() };
    assert(seq_view(v.fields@) =~= Seq::<Seq<char>>::empty());
    let mut i: usize = 1;
    let mut depth: usize = 1;
    while i < lines.len() - at && depth > 0
        invariant
            at < lines.len() < usize::MAX,
            ls == views(lines@),
            "show"@.len() == 4,
            "plus"@.len() == 4,
            1 <= i <= lines.len() - at,
            depth <= i,
            view_walk(ls, at as int, i as int, depth as int, v@) == view_block(ls, at as int),
        decreases lines.len() - at - i,
    {
        assert(ls[at + i] == lines@[at + i]@);
        let line = trim_exec(&lines[at + i]);
        if eq_str(&line, "end") {
            depth = depth - 1;
            if depth == 0 {
                return (v, i + 1);
            }
            i = i + 1;
        } else if depth == 1 && (eq_str(&line, "show_all") || starts_with_str(&line, "show_all ")) {
            v.show_all = true;
            i = i + 1;
        } else if depth == 1 && (starts_with_str(&line, "show") || starts_with_str(&line, "plus")) {
            let head = tail(&line, 4);
            let (buf, k) = show_glue_exec(lines, at, i, head);
            absorb_view_fields(&buf, &mut v.fields);
            i = k + 1;
        } else if ends_with_do_block_chars(&line) {
            depth = depth + 1;
            i = i + 1;
        } else {
            i = i + 1;
        }
    }
    (v, i + 1)
}

/// Parse a `view "name" do ... end` block: `show :a, :b` (continued over
/// lines that end in a comma) and `plus :x` add own fields, `show_all`
/// projects them all. Returns the view and the lines consumed.
pub fn parse_view(lines: &[&str]) -> (r: (AggregateView, usize))
    requires
        0 < lines.len() < usize::MAX,
    ensures
        (r.0@, r.1 as int) == view_block(strs_view(lines@), 0),
{
    let ls = lines_of(lines);
    parse_view_chars(&ls, 0)
}

// ---------------------------------------------------------------------
// Aggregate invariants
// ---------------------------------------------------------------------

/// Walks an invariant's body: the `holds_when { ... }` predicate read so
/// far and the lines consumed; `None` when a predicate's braces cross.
pub open spec fn invariant_walk(ls: Seq<Seq<char>>, at: int, i: int, depth: int, expr: Option<Seq<char>>) -> Option<(Option<Seq<char>>, int)>
    decreases ls.len() - (at + i),
{
    if at < 0 || i < 0 || at + i >= ls.len() || depth <= 0 {
        Some((expr, i + 1))
    } else {
        let line = trim(ls[at + i]);
        if line == "end"@ {
            if depth - 1 == 0 {
                Some((expr, i + 1))
            } else {
                invariant_walk(ls, at, i + 1, depth - 1, expr)
            }
        } else if depth == 1 && starts_with(line, "holds_when"@) {
            if block_panics(line) {
                None
            } else {
                invariant_walk(ls, at, i + 1, depth, block_of(line))
            }
        } else if opens_do_block(line) {
            invariant_walk(ls, at, i + 1, depth + 1, expr)
        } else {
            invariant_walk(ls, at, i + 1, depth, expr)
        }
    }
}

/// `parse_invariant`'s result for the block opening at `ls[at]`: the
/// invariant when it has a name and a predicate, and the lines consumed.
pub open spec fn invariant_block(ls: Seq<Seq<char>>, at: int) -> Option<(Option<InvariantModel>, int)> {
    let name = or_default(string_literal(trim(ls[at])), Seq::empty());
    match invariant_walk(ls, at, 1, 1, None) {
        None => None,
        Some((expr, n)) => Some(
            (
                match expr {
                    Some(e) => if name.len() > 0 {
                        Some(InvariantModel { name, expression: e })
                    } else {
                        None
                    },
                    None => None,
                },
                n,
            ),
        ),
    }
}

pub fn parse_invariant_chars(lines: &Vec<Vec<char>>, at: usize) -> (r: Option<(Option<Invariant>, usize)>)
    requires
        at < lines.len() < usize::MAX,
    ensures
        match r {
            Some((inv, n)) => invariant_block(views(lines@), at as int) == Some((opt_view(inv), n as int)),
            None => invariant_block(views(lines@), at as int) is None,
        },
        r matches Some((_, n)) ==> 2 <= n <= lines.len() + 1 - at,
{
    let ghost ls = views(lines@);
    let first = trim_exec(&lines[at]);
    assert(ls[at as int] == lines@[at as int]@);
    let name = match extract_string_chars(&first) {
        Some(n) => n,
        None => Vec::new(),
    };
    let mut expression: Option<Vec<char>> = None;
    let mut i: usize = 1;
    let mut depth: usize = 1;
    while i < lines.len() - at && depth > 0
        invariant
            at < lines.len() < usize::MAX,
            ls == views(lines@),
            1 <= i <= lines.len() - at,
            depth <= i,
            name@ == or_default(string_literal(trim(ls[at as int])), Seq::empty()),
            invariant_walk(ls, at as int, i as int, depth as int, opt_view(expression))
                == invariant_walk(ls, at as int, 1, 1, None),
        decreases lines.len() - at - i,
    {
        assert(ls[at + i] == lines@[at + i]@);
        let line = trim_exec(&lines[at + i]);
        if eq_str(&line, "end") {
            depth = depth - 1;
            if depth == 0 {
                return Some((finish_invariant(&name, expression), i + 1));
            }
        } else if depth == 1 && starts_with_str(&line, "holds_when") {
            if block_panics_exec(&line) {
                return None;
            }
            expression = block_of_exec(&line);
        } else if ends_with_do_block_chars(&line) {
            depth = depth + 1;
        }
        i = i + 1;
    }
    Some((finish_invariant(&name, expression), i + 1))
}

fn finish_invariant(name: &Vec<char>, expression: Option<Vec<char>>) -> (r: Option<Invariant>)
    ensures
        opt_view(r) == match opt_view(expression) {
            Some(e) => if name@.len() > 0 {
                Some(InvariantModel { name: name@, expression: e })
            } else {
                None
            },
            None => None,
        },
{
    match expression {
        Some(e) => if name.len() > 0 {
            Some(Invariant { name: string_of(name), expression: string_of(&e) })
        } else {
            None
        },
        None => None,
    }
}

/// Parse an `invariant "name" do holds_when { <predicate> } end` block:
/// the invariant (`None` without a name or a predicate) and the lines
/// consumed. A predicate whose braces cross is outside its domain.
pub fn parse_invariant(lines: &[&str]) -> (r: (Option<Invariant>, usize))
    requires
        0 < lines.len() < usize::MAX,
        invariant_block(strs_view(lines@), 0) is Some,
    ensures
        invariant_block(strs_view(lines@), 0) == Some((opt_view(r.0), r.1 as int)),
{
    let ls = lines_of(lines);
    match parse_invariant_chars(&ls, 0) {
        Some(r) => r,
        None => (None, 0),
    }
}


pub proof fn lemma_view_walk(ls: Seq<Seq<char>>, at: int, i: int, depth: int, v: AggregateViewModel)
    requires
        0 <= at,
        0 <= i,
    ensures
        view_walk(ls, at, i, depth, v).1 >= i + 1,
    decreases ls.len() - (at + i),
{
    if at + i < ls.len() && depth > 0 {
        let line = trim(ls[at + i]);
        if line == "end"@ {
            if depth - 1 != 0 {
                lemma_view_walk(ls, at, i + 1, depth - 1, v);
            }
        } else if depth == 1 && (line == "show_all"@ || starts_with(line, "show_all "@)) {
            lemma_view_walk(ls, at, i + 1, depth, AggregateViewModel { show_all: true, ..v });
        } else if depth == 1 && (starts_with(line, "show"@) || starts_with(line, "plus"@)) {
            lemma_show_glue(ls, at, i, line.subrange(4, line.len() as int));
            let (buf, k) = show_glue(ls, at, i, line.subrange(4, line.len() as int));
            lemma_view_walk(ls, at, k + 1, depth, AggregateViewModel { fields: v.fields + view_fields(split_char(buf, ',')), ..v });
        } else if opens_do_block(line) {
            lemma_view_walk(ls, at, i + 1, depth + 1, v);
        } else {
            lemma_view_walk(ls, at, i + 1, depth, v);
        }
    }
}

pub proof fn lemma_invariant_walk(ls: Seq<Seq<char>>, at: int, i: int, depth: int, expr: Option<Seq<char>>)
    requires
        0 <= at,
        0 <= i,
    ensures
        invariant_walk(ls, at, i, depth, expr) matches Some((_, n)) ==> n >= i + 1,
    decreases ls.len() - (at + i),
{
    if at + i < ls.len() && depth > 0 {
        let line = trim(ls[at + i]);
        if line == "end"@ {
            if depth - 1 != 0 {
                lemma_invariant_walk(ls, at, i + 1, depth - 1, expr);
            }
        } else if depth == 1 && starts_with(line, "holds_when"@) {
            if !block_panics(line) {
                lemma_invariant_walk(ls, at, i + 1, depth, block_of(line));
            }
        } else if opens_do_block(line) {
            lemma_invariant_walk(ls, at, i + 1, depth + 1, expr);
        } else {
            lemma_invariant_walk(ls, at, i + 1, depth, expr);
        }
    }
}

/// View and invariant blocks take at least two lines' worth.
pub proof fn lemma_view_invariant_blocks(ls: Seq<Seq<char>>, at: int)
    requires
        0 <= at < ls.len(),
    ensures
        view_block(ls, at).1 >= 2,
        invariant_block(ls, at) matches Some((_, n)) ==> n >= 2,
{
    lemma_view_walk(
        ls,
        at,
        1,
        1,
        AggregateViewModel {
            name: or_default(string_literal(trim(ls[at])), Seq::empty()),
            show_all: false,
            fields: Seq::empty(),
        },
    );
    lemma_invariant_walk(ls, at, 1, 1, None);
}

} // verus!

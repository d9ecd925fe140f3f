//! Terraform HCL from a hecksagon's adapters and a world's settings.
//!
//! Each adapter whose kind maps to a cloud resource becomes one
//! `resource "<type>" "<name>" { ... }` block; its inline options merge
//! with the world block of the same name (the world wins on a key both
//! set); property keys are sorted so the output is byte-stable.

use vstd::prelude::*;
use crate::text::{Stop, append, chars_of, ends_with, ends_with_str, eq, eq_str, key_less, key_less_exec, lemma_key_less_irreflexive, lemma_key_less_transitive, parse_i64, parses_i64, slice, string_of, strip_lead, strip_lead_exec, trim, trim_exec, utf8_len};
use crate::ir::{group_views, opt_view};

verus! {

broadcast use crate::ir::group_views;

// ---------------------------------------------------------------------
// Kinds
// ---------------------------------------------------------------------

/// The Terraform resource type an adapter kind maps to; runtime-only kinds
/// (`memory`, `stdout`, `llm`, ...) map to none.
pub open spec fn resource_type_of(kind: Seq<char>) -> Option<Seq<char>> {
    if kind == "s3"@ {
        Some("aws_s3_bucket"@)
    } else if kind == "sqs"@ {
        Some("aws_sqs_queue"@)
    } else if kind == "lambda"@ {
        Some("aws_lambda_function"@)
    } else if kind == "dynamodb"@ {
        Some("aws_dynamodb_table"@)
    } else if kind == "sns"@ {
        Some("aws_sns_topic"@)
    } else {
        None
    }
}

/// Look up the Terraform resource type for a hecksagon adapter kind;
/// `None` when the kind has no cloud-resource analog.
pub fn resource_type_for(kind: &str) -> (r: Option<&'static str>)
    ensures
        opt_view(r) == resource_type_of(kind@),
{
    let k = chars_of(kind);
    if eq_str(&k, "s3") {
        Some("aws_s3_bucket")
    } else if eq_str(&k, "sqs") {
        Some("aws_sqs_queue")
    } else if eq_str(&k, "lambda") {
        Some("aws_lambda_function")
    } else if eq_str(&k, "dynamodb") {
        Some("aws_dynamodb_table")
    } else if eq_str(&k, "sns") {
        Some("aws_sns_topic")
    } else {
        None
    }
}

// ---------------------------------------------------------------------
// Values
// ---------------------------------------------------------------------

/// A raw value as an HCL literal: booleans and `i64` integers bare, an
/// already-quoted string verbatim, anything else wrapped in quotes.
pub open spec fn hcl_value(v: Seq<char>) -> Seq<char> {
    let t = trim(v);
    if t == "true"@ || t == "false"@ || parses_i64(t) || (t.len() >= 2 && t[0] == '"' && t.last() == '"') {
        t
    } else {
        seq!['"'] + t + seq!['"']
    }
}

/// HCL booleans are written bare: a value that trims to `true` or to
/// `false` is that word, unquoted.
pub proof fn law_booleans_are_bare(v: Seq<char>)
    requires
        trim(v) == "true"@ || trim(v) == "false"@,
    ensures
        hcl_value(v) == trim(v),
{
}

pub fn format_value_chars(v: &Vec<char>) -> (r: Vec<char>)
    ensures
        r@ == hcl_value(v@),
{
    let t = trim_exec(v);
    if eq_str(&t, "true") || eq_str(&t, "false") || parse_i64(&t).is_some() || (t.len() >= 2 && t[0] == '"'
        && t[t.len() - 1] == '"') {
        return t;
    }
    let mut out: Vec<char> = Vec::new();
    out.push('"');
    append(&mut out, &t);
    out.push('"');
    assert(out@ =~= seq!['"'] + t@ + seq!['"']);
    out
}

/// Render a raw value string as an HCL literal: `true` / `false` and
/// integers bare, an already-quoted string verbatim, anything else quoted.
pub fn format_value(v: &str) -> (r: String)
    ensures
        r@ == hcl_value(v@),
{
    let c = chars_of(v);
    let r = format_value_chars(&c);
    string_of(&r)
}


// ---------------------------------------------------------------------
// Property order
// ---------------------------------------------------------------------

/// Where a stable insertion puts `x` in `s`: before the first entry whose
/// key sorts after its own.
pub open spec fn insert_pos(s: Seq<(Seq<char>, Seq<char>)>, x: (Seq<char>, Seq<char>), j: int) -> int
    decreases s.len() - j,
{
    if j < 0 || j >= s.len() {
        s.len() as int
    } else if key_less(x.0, s[j].0) {
        j
    } else {
        insert_pos(s, x, j + 1)
    }
}

pub proof fn lemma_insert_pos(s: Seq<(Seq<char>, Seq<char>)>, x: (Seq<char>, Seq<char>), j: int)
    requires
        0 <= j <= s.len(),
    ensures
        j <= insert_pos(s, x, j) <= s.len(),
    decreases s.len() - j,
{
    if j < s.len() && !key_less(x.0, s[j].0) {
        lemma_insert_pos(s, x, j + 1);
    }
}

/// The properties stably sorted by key.
pub open spec fn sort_props(ps: Seq<(Seq<char>, Seq<char>)>) -> Seq<(Seq<char>, Seq<char>)>
    decreases ps.len(),
{
    if ps.len() == 0 {
        Seq::empty()
    } else {
        let s = sort_props(ps.drop_last());
        s.insert(insert_pos(s, ps.last(), 0), ps.last())
    }
}

/// The properties are in ascending order of key.
pub open spec fn props_sorted(s: Seq<(Seq<char>, Seq<char>)>) -> bool {
    forall|i: int, j: int| 0 <= i < j < s.len() ==> !key_less(s[j].0, s[i].0)
}

proof fn lemma_insert_pos_bounds(t: Seq<(Seq<char>, Seq<char>)>, x: (Seq<char>, Seq<char>), j: int)
    requires
        0 <= j <= t.len(),
    ensures
        forall|k: int| j <= k < insert_pos(t, x, j) ==> !key_less(x.0, t[k].0),
        insert_pos(t, x, j) < t.len() ==> key_less(x.0, t[insert_pos(t, x, j)].0),
    decreases t.len() - j,
{
    if j < t.len() && !key_less(x.0, t[j].0) {
        lemma_insert_pos_bounds(t, x, j + 1);
    }
}

/// A resource block lists its properties alphabetically by key: the
/// sorted properties are in ascending key order and are exactly the
/// given ones, each as often as it was given.
pub proof fn law_props_alphabetised(ps: Seq<(Seq<char>, Seq<char>)>)
    ensures
        props_sorted(sort_props(ps)),
        sort_props(ps).to_multiset() == ps.to_multiset(),
    decreases ps.len(),
{
    broadcast use vstd::seq_lib::to_multiset_insert, vstd::seq_lib::to_multiset_build;
    if ps.len() > 0 {
        let t = sort_props(ps.drop_last());
        let x = ps.last();
        law_props_alphabetised(ps.drop_last());
        lemma_insert_pos(t, x, 0);
        lemma_insert_pos_bounds(t, x, 0);
        let p = insert_pos(t, x, 0);
        let r = t.insert(p, x);
        assert(props_sorted(r)) by {
            assert forall|i: int, j: int| 0 <= i < j < r.len() implies !key_less(r[j].0, r[i].0) by {
                if j < p {
                    assert(r[i] == t[i] && r[j] == t[j]);
                } else if j == p {
                    assert(r[i] == t[i] && r[j] == x);
                } else if i < p {
                    assert(r[i] == t[i] && r[j] == t[j - 1]);
                } else if i == p {
                    assert(r[i] == x && r[j] == t[j - 1]);
                    if key_less(t[j - 1].0, x.0) {
                        if j - 1 > p {
                            assert(!key_less(t[j - 1].0, t[p].0));
                        }
                        lemma_key_less_transitive(t[j - 1].0, x.0, t[p].0);
                        lemma_key_less_irreflexive(t[p].0);
                    }
                } else {
                    assert(r[i] == t[i - 1] && r[j] == t[j - 1]);
                }
            }
        }
        assert(ps == ps.drop_last().push(x));
        assert(r.to_multiset() == t.to_multiset().insert(x));
        assert(ps.drop_last().push(x).to_multiset() == ps.drop_last().to_multiset().insert(x));
    } else {
        assert(ps =~= Seq::<(Seq<char>, Seq<char>)>::empty());
        assert(sort_props(ps) =~= Seq::<(Seq<char>, Seq<char>)>::empty());
    }
}

pub proof fn lemma_sort_props_len(ps: Seq<(Seq<char>, Seq<char>)>)
    ensures
        sort_props(ps).len() == ps.len(),
    decreases ps.len(),
{
    if ps.len() > 0 {
        lemma_sort_props_len(ps.drop_last());
        lemma_insert_pos(sort_props(ps.drop_last()), ps.last(), 0);
    }
}

/// No key is set twice.
pub open spec fn keys_distinct(ps: Seq<(Seq<char>, Seq<char>)>) -> bool {
    forall|i: int, j: int| 0 <= i < j < ps.len() ==> ps[i].0 != ps[j].0
}

/// Keys stay distinct under a reordering of the same pairs.
proof fn lemma_keys_distinct_transfer(s: Seq<(Seq<char>, Seq<char>)>, p: Seq<(Seq<char>, Seq<char>)>)
    requires
        s.to_multiset() == p.to_multiset(),
        keys_distinct(p),
    ensures
        keys_distinct(s),
{
    broadcast use vstd::seq_lib::to_multiset_contains;
    assert(p.no_duplicates()) by {
        assert forall|i: int, j: int| 0 <= i < p.len() && 0 <= j < p.len() && i != j implies p[i]
            != p[j] by {
            if i < j {
                assert(p[i].0 != p[j].0);
            } else {
                assert(p[j].0 != p[i].0);
            }
        }
    }
    p.lemma_multiset_has_no_duplicates();
    s.lemma_multiset_has_no_duplicates_conv();
    assert forall|i: int, j: int| 0 <= i < j < s.len() implies s[i].0 != s[j].0 by {
        if s[i].0 == s[j].0 {
            assert(s.contains(s[i]));
            assert(s.contains(s[j]));
            assert(p.to_multiset().count(s[i]) > 0);
            assert(p.to_multiset().count(s[j]) > 0);
            let a = choose|a: int| 0 <= a < p.len() && p[a] == s[i];
            let b = choose|b: int| 0 <= b < p.len() && p[b] == s[j];
            assert(s[i] != s[j]);
            if a < b {
                assert(p[a].0 != p[b].0);
            } else {
                assert(p[b].0 != p[a].0);
            }
        }
    }
}

/// Two key-sorted lists of the same pairs, with no key twice, are equal.
proof fn lemma_sorted_unique(s: Seq<(Seq<char>, Seq<char>)>, t: Seq<(Seq<char>, Seq<char>)>)
    requires
        props_sorted(s),
        props_sorted(t),
        keys_distinct(s),
        s.to_multiset() == t.to_multiset(),
    ensures
        s == t,
    decreases s.len(),
{
    broadcast use vstd::seq_lib::to_multiset_contains, vstd::seq_lib::to_multiset_len,
        vstd::seq_lib::to_multiset_remove;
    assert(s.len() == s.to_multiset().len());
    assert(t.len() == t.to_multiset().len());
    if s.len() == 0 {
        assert(s =~= t);
    } else {
        assert(t.contains(t[0]));
        assert(s.to_multiset().count(t[0]) > 0);
        let m = choose|m: int| 0 <= m < s.len() && s[m] == t[0];
        assert(s.contains(s[0]));
        assert(t.to_multiset().count(s[0]) > 0);
        let k = choose|k: int| 0 <= k < t.len() && t[k] == s[0];
        if m > 0 {
            assert(!key_less(s[m].0, s[0].0));
        } else {
            lemma_key_less_irreflexive(s[0].0);
        }
        if k > 0 {
            assert(!key_less(t[k].0, t[0].0));
        } else {
            lemma_key_less_irreflexive(t[0].0);
        }
        crate::text::lemma_key_less_total(s[0].0, t[0].0);
        assert(s[0].0 == t[0].0);
        if m > 0 {
            assert(s[0].0 != s[m].0);
        }
        assert(s[0] == t[0]);
        let s1 = s.remove(0);
        let t1 = t.remove(0);
        assert(s1.to_multiset() == s.to_multiset().remove(s[0]));
        assert(t1.to_multiset() == t.to_multiset().remove(t[0]));
        assert(props_sorted(s1)) by {
            assert forall|i: int, j: int| 0 <= i < j < s1.len() implies !key_less(s1[j].0, s1[i].0) by {
                assert(s1[i] == s[i + 1] && s1[j] == s[j + 1]);
            }
        }
        assert(props_sorted(t1)) by {
            assert forall|i: int, j: int| 0 <= i < j < t1.len() implies !key_less(t1[j].0, t1[i].0) by {
                assert(t1[i] == t[i + 1] && t1[j] == t[j + 1]);
            }
        }
        assert(keys_distinct(s1)) by {
            assert forall|i: int, j: int| 0 <= i < j < s1.len() implies s1[i].0 != s1[j].0 by {
                assert(s1[i] == s[i + 1] && s1[j] == s[j + 1]);
            }
        }
        lemma_sorted_unique(s1, t1);
        assert forall|i: int| 0 <= i < s.len() implies s[i] == t[i] by {
            if i > 0 {
                assert(s[i] == s1[i - 1] && t[i] == t1[i - 1]);
            }
        }
        assert(s =~= t);
    }
}

/// The order in which properties are given does not change a resource
/// block, so long as no key is given twice: two lists of the same pairs
/// give the same block.
pub proof fn law_resource_block_ignores_order(
    resource_type: Seq<char>,
    name: Seq<char>,
    p1: Seq<(Seq<char>, Seq<char>)>,
    p2: Seq<(Seq<char>, Seq<char>)>,
)
    requires
        p1.to_multiset() == p2.to_multiset(),
        keys_distinct(p1),
    ensures
        resource_text(resource_type, name, p1) == resource_text(resource_type, name, p2),
{
    law_props_alphabetised(p1);
    law_props_alphabetised(p2);
    let s1 = sort_props(p1);
    let s2 = sort_props(p2);
    lemma_keys_distinct_transfer(s1, p1);
    lemma_sorted_unique(s1, s2);
}

/// The properties as characters.
pub open spec fn props_view(ps: Seq<(String, String)>) -> Seq<(Seq<char>, Seq<char>)> {
    ps.map_values(|p: (String, String)| (p.0@, p.1@))
}

fn props_chars(ps: &[(String, String)]) -> (r: Vec<(Vec<char>, Vec<char>)>)
    ensures
        r@.map_values(|p: (Vec<char>, Vec<char>)| (p.0@, p.1@)) == props_view(ps@),
{
    let mut out: Vec<(Vec<char>, Vec<char>)> = Vec::new();
    let mut i: usize = 0;
    while i < ps.len()
        invariant
            i <= ps.len(),
            out@.len() == i,
            forall|k: int| 0 <= k < i ==> (#[trigger] out@[k]).0@ == ps@[k].0@ && out@[k].1@ == ps@[k].1@,
        decreases ps.len() - i,
    {
        let k = chars_of(ps[i].0.as_str());
        let v = chars_of(ps[i].1.as_str());
        out.push((k, v));
        i = i + 1;
    }
    assert(out@.map_values(|p: (Vec<char>, Vec<char>)| (p.0@, p.1@)) =~= props_view(ps@));
    out
}

fn sort_props_exec(ps: &Vec<(Vec<char>, Vec<char>)>) -> (r: Vec<(Vec<char>, Vec<char>)>)
    ensures
        r@.map_values(|p: (Vec<char>, Vec<char>)| (p.0@, p.1@)) == sort_props(
            ps@.map_values(|p: (Vec<char>, Vec<char>)| (p.0@, p.1@)),
        ),
{
    let ghost pv = ps@.map_values(|p: (Vec<char>, Vec<char>)| (p.0@, p.1@));
    let mut out: Vec<(Vec<char>, Vec<char>)> = Vec::new();
    let mut i: usize = 0;
    assert(pv.take(0) =~= Seq::<(Seq<char>, Seq<char>)>::empty());
    assert(out@.map_values(|p: (Vec<char>, Vec<char>)| (p.0@, p.1@)) =~= sort_props(pv.take(0)));
    while i < ps.len()
        invariant
            i <= ps.len(),
            pv == ps@.map_values(|p: (Vec<char>, Vec<char>)| (p.0@, p.1@)),
            out@.map_values(|p: (Vec<char>, Vec<char>)| (p.0@, p.1@)) == sort_props(pv.take(i as int)),
        decreases ps.len() - i,
    {
        let ghost sv = out@.map_values(|p: (Vec<char>, Vec<char>)| (p.0@, p.1@));
        let ghost x = pv[i as int];
        assert(pv.take(i + 1).drop_last() =~= pv.take(i as int));
        assert(pv.take(i + 1).last() == x);
        proof { lemma_insert_pos(sv, x, 0); }
        let mut j: usize = 0;
        while j < out.len() && !key_less_exec(&ps[i].0, &out[j].0)
            invariant
                j <= out.len(),
                sv == out@.map_values(|p: (Vec<char>, Vec<char>)| (p.0@, p.1@)),
                x == pv[i as int],
                i < ps.len(),
                pv == ps@.map_values(|p: (Vec<char>, Vec<char>)| (p.0@, p.1@)),
                insert_pos(sv, x, j as int) == insert_pos(sv, x, 0),
            decreases out.len() - j,
        {
            j = j + 1;
        }
        let k = ps[i].0.clone();
        let v = ps[i].1.clone();
        assert(k@ == x.0 && v@ == x.1);
        out.insert(j, (k, v));
        assert(out@.map_values(|p: (Vec<char>, Vec<char>)| (p.0@, p.1@)) =~= sv.insert(j as int, x));
        i = i + 1;
    }
    assert(pv.take(ps.len() as int) =~= pv);
    out
}

// ---------------------------------------------------------------------
// Blocks
// ---------------------------------------------------------------------

/// `n` spaces.
pub open spec fn spaces(n: int) -> Seq<char> {
    Seq::new(if n > 0 { n as nat } else { 0 }, |k: int| ' ')
}

/// The widest key, in UTF-8 bytes.
pub open spec fn key_width(s: Seq<(Seq<char>, Seq<char>)>) -> int
    decreases s.len(),
{
    if s.len() == 0 {
        0
    } else {
        let w = key_width(s.drop_last());
        let k = utf8_len(s.last().0);
        if k > w {
            k
        } else {
            w
        }
    }
}

/// One `  key = value` line, the key padded (in characters) to `width`.
pub open spec fn prop_line(p: (Seq<char>, Seq<char>), width: int) -> Seq<char> {
    "  "@ + p.0 + spaces(width - p.0.len()) + " = "@ + hcl_value(p.1) + seq!['\n']
}

/// The property lines in order.
pub open spec fn prop_lines(s: Seq<(Seq<char>, Seq<char>)>, width: int) -> Seq<char>
    decreases s.len(),
{
    if s.len() == 0 {
        Seq::empty()
    } else {
        prop_lines(s.drop_last(), width) + prop_line(s.last(), width)
    }
}

/// The body of a block: its properties sorted by key, aligned.
pub open spec fn props_body(ps: Seq<(Seq<char>, Seq<char>)>) -> Seq<char> {
    let s = sort_props(ps);
    prop_lines(s, key_width(s))
}

/// `resource "<type>" "<name>" { ... }`.
pub open spec fn resource_text(resource_type: Seq<char>, name: Seq<char>, ps: Seq<(Seq<char>, Seq<char>)>) -> Seq<char> {
    "resource \""@ + resource_type + "\" \""@ + name + "\" {\n"@ + props_body(ps) + "}\n"@
}

fn utf8_len_exec(s: &Vec<char>) -> (r: u128)
    ensures
        r == utf8_len(s@),
        r <= 4 * s@.len(),
{
    let mut n: u128 = 0;
    let mut i: usize = 0;
    while i < s.len()
        invariant
            i <= s.len(),
            n == utf8_len(s@.subrange(0, i as int)),
            n <= 4 * i,
        decreases s.len() - i,
    {
        let c = s[i];
        let w: u128 = if (c as u32) < 0x80 {
            1
        } else if (c as u32) < 0x800 {
            2
        } else if (c as u32) < 0x10000 {
            3
        } else {
            4
        };
        assert(s@.subrange(0, i + 1).drop_last() =~= s@.subrange(0, i as int));
        n = n + w;
        i = i + 1;
    }
    assert(s@.subrange(0, s.len() as int) =~= s@);
    n
}

fn props_body_exec(ps: &Vec<(Vec<char>, Vec<char>)>) -> (r: Vec<char>)
    ensures
        r@ == props_body(ps@.map_values(|p: (Vec<char>, Vec<char>)| (p.0@, p.1@))),
{
    let sorted = sort_props_exec(ps);
    let ghost sv = sorted@.map_values(|p: (Vec<char>, Vec<char>)| (p.0@, p.1@));
    let mut width: u128 = 0;
    let mut i: usize = 0;
    assert(sv.take(0) =~= Seq::<(Seq<char>, Seq<char>)>::empty());
    while i < sorted.len()
        invariant
            i <= sorted.len(),
            sv == sorted@.map_values(|p: (Vec<char>, Vec<char>)| (p.0@, p.1@)),
            width == key_width(sv.take(i as int)),
        decreases sorted.len() - i,
    {
        assert(sv.take(i + 1).drop_last() =~= sv.take(i as int));
        let k = utf8_len_exec(&sorted[i].0);
        if k > width {
            width = k;
        }
        i = i + 1;
    }
    assert(sv.take(sorted.len() as int) =~= sv);
    let mut out: Vec<char> = Vec::new();
    let mut j: usize = 0;
    assert(out@ =~= prop_lines(sv.take(0), width as int));
    while j < sorted.len()
        invariant
            j <= sorted.len(),
            sv == sorted@.map_values(|p: (Vec<char>, Vec<char>)| (p.0@, p.1@)),
            width == key_width(sv),
            out@ == prop_lines(sv.take(j as int), width as int),
        decreases sorted.len() - j,
    {
        assert(sv.take(j + 1).drop_last() =~= sv.take(j as int));
        let ghost before = out@;
        let k = &sorted[j].0;
        let v = &sorted[j].1;
        assert(sv[j as int] == (k@, v@));
        proof { reveal_strlit("  "); }
        out.push(' ');
        out.push(' ');
        append(&mut out, k);
        assert(out@ =~= before + "  "@ + k@);
        let mut pad: u128 = 0;
        let need: u128 = if width > k.len() as u128 { width - k.len() as u128 } else { 0 };
        let ghost mid = out@;
        while pad < need
            invariant
                pad <= need,
                out@ == mid + spaces(pad as int),
            decreases need - pad,
        {
            out.push(' ');
            assert(out@ =~= mid + spaces(pad + 1));
            pad = pad + 1;
        }
        assert(spaces(need as int) =~= spaces(width - k@.len()));
        let eqs = chars_of(" = ");
        append(&mut out, &eqs);
        let fv = format_value_chars(v);
        append(&mut out, &fv);
        out.push('\n');
        assert(out@ =~= before + "  "@ + k@ + spaces(width - k@.len()) + " = "@ + hcl_value(v@) + seq!['\n']);
        assert(out@ =~= before + prop_line(sv[j as int], width as int));
        j = j + 1;
    }
    assert(sv.take(sorted.len() as int) =~= sv);
    out
}

pub fn resource_block_chars(resource_type: &Vec<char>, name: &Vec<char>, props: &Vec<(Vec<char>, Vec<char>)>) -> (r: Vec<char>)
    ensures
        r@ == resource_text(resource_type@, name@, props@.map_values(|p: (Vec<char>, Vec<char>)| (p.0@, p.1@))),
{
    let mut out = chars_of("resource \"");
    append(&mut out, resource_type);
    let q = chars_of("\" \"");
    append(&mut out, &q);
    append(&mut out, name);
    let open = chars_of("\" {\n");
    append(&mut out, &open);
    let body = props_body_exec(props);
    append(&mut out, &body);
    let close = chars_of("}\n");
    append(&mut out, &close);
    out
}

/// Emit one `resource "<type>" "<name>" { ... }` block, its properties
/// sorted by key and aligned at `=`.
pub fn resource_block(resource_type: &str, name: &str, props: &[(String, String)]) -> (r: String)
    ensures
        r@ == resource_text(resource_type@, name@, props_view(props@)),
{
    let t = chars_of(resource_type);
    let n = chars_of(name);
    let ps = props_chars(props);
    let out = resource_block_chars(&t, &n, &ps);
    string_of(&out)
}


// ---------------------------------------------------------------------
// Merging and naming
// ---------------------------------------------------------------------

/// The keys a property list sets.
pub open spec fn keys_of(ps: Seq<(Seq<char>, Seq<char>)>) -> Seq<Seq<char>> {
    ps.map_values(|p: (Seq<char>, Seq<char>)| p.0)
}

/// The entries whose key is not in `keys`, in order.
pub open spec fn without_keys(ps: Seq<(Seq<char>, Seq<char>)>, keys: Seq<Seq<char>>) -> Seq<(Seq<char>, Seq<char>)>
    decreases ps.len(),
{
    if ps.len() == 0 {
        Seq::empty()
    } else {
        without_keys(ps.drop_last(), keys) + if keys.contains(ps.last().0) {
            Seq::empty()
        } else {
            seq![ps.last()]
        }
    }
}

/// Inline options merged with a world block: the inline entries the
/// world does not set, then every world entry (the world wins).
pub open spec fn merged(inline: Seq<(Seq<char>, Seq<char>)>, world: Seq<(Seq<char>, Seq<char>)>) -> Seq<(Seq<char>, Seq<char>)> {
    without_keys(inline, keys_of(world)) + world
}

proof fn lemma_without_keys(ps: Seq<(Seq<char>, Seq<char>)>, keys: Seq<Seq<char>>)
    ensures
        forall|i: int|
            0 <= i < without_keys(ps, keys).len() ==> !keys.contains(#[trigger] without_keys(ps, keys)[i].0),
    decreases ps.len(),
{
    if ps.len() > 0 {
        lemma_without_keys(ps.drop_last(), keys);
        let w = without_keys(ps.drop_last(), keys);
        let tail: Seq<(Seq<char>, Seq<char>)> = if keys.contains(ps.last().0) {
            Seq::empty()
        } else {
            seq![ps.last()]
        };
        assert forall|i: int| 0 <= i < (w + tail).len() implies !keys.contains(#[trigger] (w + tail)[i].0) by {
            if i < w.len() {
                assert((w + tail)[i] == w[i]);
            } else {
                assert((w + tail)[i] == ps.last());
            }
        }
    }
}

/// Where an adapter's options and its world block set the same key, the
/// world's value is the one kept: every merged entry with a key the world
/// sets is a world entry, and every world entry is kept.
pub proof fn law_world_values_win(inline: Seq<(Seq<char>, Seq<char>)>, world: Seq<(Seq<char>, Seq<char>)>)
    ensures
        forall|i: int|
            0 <= i < merged(inline, world).len() && keys_of(world).contains(
                #[trigger] merged(inline, world)[i].0,
            ) ==> world.contains(merged(inline, world)[i]),
        forall|j: int| 0 <= j < world.len() ==> merged(inline, world).contains(#[trigger] world[j]),
{
    let w = without_keys(inline, keys_of(world));
    lemma_without_keys(inline, keys_of(world));
    assert forall|i: int|
        0 <= i < merged(inline, world).len() && keys_of(world).contains(
            #[trigger] merged(inline, world)[i].0,
        ) implies world.contains(merged(inline, world)[i]) by {
        if i < w.len() {
            assert(merged(inline, world)[i] == w[i]);
        } else {
            assert(merged(inline, world)[i] == world[i - w.len()]);
        }
    }
    assert forall|j: int| 0 <= j < world.len() implies merged(inline, world).contains(#[trigger] world[j]) by {
        assert(merged(inline, world)[w.len() + j] == world[j]);
    }
}

fn key_in(ps: &Vec<(Vec<char>, Vec<char>)>, key: &Vec<char>) -> (r: bool)
    ensures
        r == keys_of(ps@.map_values(|p: (Vec<char>, Vec<char>)| (p.0@, p.1@))).contains(key@),
{
    let ghost ks = keys_of(ps@.map_values(|p: (Vec<char>, Vec<char>)| (p.0@, p.1@)));
    let mut j: usize = 0;
    while j < ps.len()
        invariant
            j <= ps.len(),
            ks == keys_of(ps@.map_values(|p: (Vec<char>, Vec<char>)| (p.0@, p.1@))),
            forall|k: int| 0 <= k < j ==> ks[k] != key@,
        decreases ps.len() - j,
    {
        if eq(&ps[j].0, key) {
            assert(ks[j as int] == key@);
            return true;
        }
        j = j + 1;
    }
    proof {
        if ks.contains(key@) {
            let k = choose|k: int| 0 <= k < ks.len() && ks[k] == key@;
            assert(ks[k] != key@);
        }
    }
    false
}

fn without_keys_exec(ps: &Vec<(Vec<char>, Vec<char>)>, drop: &Vec<(Vec<char>, Vec<char>)>) -> (r: Vec<(Vec<char>, Vec<char>)>)
    ensures
        r@.map_values(|p: (Vec<char>, Vec<char>)| (p.0@, p.1@)) == without_keys(
            ps@.map_values(|p: (Vec<char>, Vec<char>)| (p.0@, p.1@)),
            keys_of(drop@.map_values(|p: (Vec<char>, Vec<char>)| (p.0@, p.1@))),
        ),
{
    let ghost pv = ps@.map_values(|p: (Vec<char>, Vec<char>)| (p.0@, p.1@));
    let ghost ks = keys_of(drop@.map_values(|p: (Vec<char>, Vec<char>)| (p.0@, p.1@)));
    let mut out: Vec<(Vec<char>, Vec<char>)> = Vec::new();
    let mut i: usize = 0;
    assert(pv.take(0) =~= Seq::<(Seq<char>, Seq<char>)>::empty());
    assert(out@.map_values(|p: (Vec<char>, Vec<char>)| (p.0@, p.1@)) =~= without_keys(pv.take(0), ks));
    while i < ps.len()
        invariant
            i <= ps.len(),
            pv == ps@.map_values(|p: (Vec<char>, Vec<char>)| (p.0@, p.1@)),
            ks == keys_of(drop@.map_values(|p: (Vec<char>, Vec<char>)| (p.0@, p.1@))),
            out@.map_values(|p: (Vec<char>, Vec<char>)| (p.0@, p.1@)) == without_keys(pv.take(i as int), ks),
        decreases ps.len() - i,
    {
        assert(pv.take(i + 1).drop_last() =~= pv.take(i as int));
        assert(pv.take(i + 1).last() == pv[i as int]);
        let ghost before = out@.map_values(|p: (Vec<char>, Vec<char>)| (p.0@, p.1@));
        if !key_in(drop, &ps[i].0) {
            let k = ps[i].0.clone();
            let v = ps[i].1.clone();
            out.push((k, v));
            assert(out@.map_values(|p: (Vec<char>, Vec<char>)| (p.0@, p.1@)) =~= before.push(pv[i as int]));
        }
        assert(out@.map_values(|p: (Vec<char>, Vec<char>)| (p.0@, p.1@)) =~= without_keys(pv.take(i + 1), ks));
        i = i + 1;
    }
    assert(pv.take(ps.len() as int) =~= pv);
    out
}

fn merge_props(inline: &Vec<(Vec<char>, Vec<char>)>, world: &Vec<(Vec<char>, Vec<char>)>) -> (r: Vec<(Vec<char>, Vec<char>)>)
    ensures
        r@.map_values(|p: (Vec<char>, Vec<char>)| (p.0@, p.1@)) == merged(
            inline@.map_values(|p: (Vec<char>, Vec<char>)| (p.0@, p.1@)),
            world@.map_values(|p: (Vec<char>, Vec<char>)| (p.0@, p.1@)),
        ),
{
    let mut out = without_keys_exec(inline, world);
    let ghost before = out@.map_values(|p: (Vec<char>, Vec<char>)| (p.0@, p.1@));
    let ghost wv = world@.map_values(|p: (Vec<char>, Vec<char>)| (p.0@, p.1@));
    let mut j: usize = 0;
    while j < world.len()
        invariant
            j <= world.len(),
            wv == world@.map_values(|p: (Vec<char>, Vec<char>)| (p.0@, p.1@)),
            out@.map_values(|p: (Vec<char>, Vec<char>)| (p.0@, p.1@)) == before + wv.take(j as int),
        decreases world.len() - j,
    {
        let k = world[j].0.clone();
        let v = world[j].1.clone();
        assert(k@ == wv[j as int].0 && v@ == wv[j as int].1);
        let ghost prev = out@.map_values(|p: (Vec<char>, Vec<char>)| (p.0@, p.1@));
        out.push((k, v));
        assert(out@.map_values(|p: (Vec<char>, Vec<char>)| (p.0@, p.1@)) =~= prev.push(wv[j as int]));
        assert(before + wv.take(j + 1) =~= (before + wv.take(j as int)).push(wv[j as int]));
        j = j + 1;
    }
    assert(wv.take(world.len() as int) =~= wv);
    out
}

/// The adapter's own options without its `name`.
pub open spec fn unnamed(ps: Seq<(Seq<char>, Seq<char>)>) -> Seq<(Seq<char>, Seq<char>)> {
    without_keys(ps, seq!["name"@])
}

/// A `name` option's value as a resource name: surrounding quotes or a
/// leading `:` removed.
pub open spec fn resource_name(v: Seq<char>) -> Seq<char> {
    let raw = trim(v);
    if raw.len() >= 2 && raw[0] == '"' && raw.last() == '"' {
        raw.subrange(1, raw.len() - 1)
    } else {
        strip_lead(raw, Stop::Other(':'))
    }
}

/// The first `name` option, as a resource name.
pub open spec fn name_option(ps: Seq<(Seq<char>, Seq<char>)>, j: int) -> Option<Seq<char>>
    decreases ps.len() - j,
{
    if j < 0 || j >= ps.len() {
        None
    } else if ps[j].0 == "name"@ {
        Some(resource_name(ps[j].1))
    } else {
        name_option(ps, j + 1)
    }
}

fn name_from_options(ps: &Vec<(Vec<char>, Vec<char>)>) -> (r: Option<Vec<char>>)
    ensures
        opt_view(r) == name_option(ps@.map_values(|p: (Vec<char>, Vec<char>)| (p.0@, p.1@)), 0),
{
    let ghost pv = ps@.map_values(|p: (Vec<char>, Vec<char>)| (p.0@, p.1@));
    let mut j: usize = 0;
    while j < ps.len()
        invariant
            j <= ps.len(),
            pv == ps@.map_values(|p: (Vec<char>, Vec<char>)| (p.0@, p.1@)),
            name_option(pv, j as int) == name_option(pv, 0),
        decreases ps.len() - j,
    {
        if eq_str(&ps[j].0, "name") {
            let raw = trim_exec(&ps[j].1);
            if raw.len() >= 2 && raw[0] == '"' && raw[raw.len() - 1] == '"' {
                return Some(slice(&raw, 1, raw.len() - 1));
            }
            return Some(strip_lead_exec(&raw, &Stop::Other(':')));
        }
        j = j + 1;
    }
    None
}

fn unnamed_exec(ps: &Vec<(Vec<char>, Vec<char>)>) -> (r: Vec<(Vec<char>, Vec<char>)>)
    ensures
        r@.map_values(|p: (Vec<char>, Vec<char>)| (p.0@, p.1@)) == unnamed(ps@.map_values(|p: (Vec<char>, Vec<char>)| (p.0@, p.1@))),
{
    let mut drop: Vec<(Vec<char>, Vec<char>)> = Vec::new();
    drop.push((chars_of("name"), Vec::new()));
    assert(keys_of(drop@.map_values(|p: (Vec<char>, Vec<char>)| (p.0@, p.1@))) =~= seq!["name"@]);
    without_keys_exec(ps, &drop)
}

/// The block one adapter projects to: `None` when its kind has no
/// resource type.
pub open spec fn adapter_text(
    kind: Seq<char>,
    name: Seq<char>,
    inline: Seq<(Seq<char>, Seq<char>)>,
    world: Seq<(Seq<char>, Seq<char>)>,
) -> Option<Seq<char>> {
    match resource_type_of(kind) {
        None => None,
        Some(rt) => Some(resource_text(rt, name, merged(unnamed(inline), world))),
    }
}

/// Project one adapter to its resource block: its inline options (less
/// `name`) merged with the world's, the world winning. `None` when the
/// kind has no Terraform mapping.
pub fn project_adapter(
    kind: &str,
    name: &str,
    inline_props: &[(String, String)],
    world_props: &[(String, String)],
) -> (r: Option<String>)
    ensures
        opt_view(r) == adapter_text(kind@, name@, props_view(inline_props@), props_view(world_props@)),
{
    let rt = match resource_type_for(kind) {
        None => return None,
        Some(t) => t,
    };
    let inline = props_chars(inline_props);
    let world = props_chars(world_props);
    let filtered = unnamed_exec(&inline);
    let m = merge_props(&filtered, &world);
    let t = chars_of(rt);
    let n = chars_of(name);
    let block = resource_block_chars(&t, &n, &m);
    Some(string_of(&block))
}


// ---------------------------------------------------------------------
// Hecksagons and worlds
// ---------------------------------------------------------------------

/// One `adapter :kind, name: ..., k: v` of a hecksagon: its kind and its
/// options as source text.
#[derive(Debug, Clone)]
pub struct IoAdapter {
    pub kind: String,
    pub options: Vec<(String, String)>,
}

/// The part of a hecksagon the projectors read: its name, its I/O
/// adapters in order, and the persistence adapter it declares.
#[derive(Debug, Clone)]
pub struct Hecksagon {
    pub name: String,
    pub io_adapters: Vec<IoAdapter>,
    pub persistence: Option<String>,
}

/// One named settings block of a world (`aws do ... end`,
/// `events_store do ... end`).
#[derive(Debug, Clone)]
pub struct WorldBlock {
    pub name: String,
    pub values: Vec<(String, String)>,
}

/// A world's settings blocks, in order.
#[derive(Debug, Clone)]
pub struct World {
    pub blocks: Vec<WorldBlock>,
}

/// The values of the first world block named `name`.
pub open spec fn config_of(blocks: Seq<WorldBlock>, name: Seq<char>, j: int) -> Option<Seq<(Seq<char>, Seq<char>)>>
    decreases blocks.len() - j,
{
    if j < 0 || j >= blocks.len() {
        None
    } else if blocks[j].name@ == name {
        Some(props_view(blocks[j].values@))
    } else {
        config_of(blocks, name, j + 1)
    }
}

impl World {
    /// The settings block named `name`, if the world has one.
    pub fn config_for(&self, name: &str) -> (r: Option<&WorldBlock>)
        ensures
            match r {
                Some(b) => config_of(self.blocks@, name@, 0) == Some(props_view(b.values@)),
                None => config_of(self.blocks@, name@, 0) is None,
            },
    {
        let n = chars_of(name);
        let mut j: usize = 0;
        while j < self.blocks.len()
            invariant
                j <= self.blocks.len(),
                n@ == name@,
                config_of(self.blocks@, name@, j as int) == config_of(self.blocks@, name@, 0),
            decreases self.blocks.len() - j,
        {
            let bn = chars_of(self.blocks[j].name.as_str());
            if eq(&bn, &n) {
                return Some(&self.blocks[j]);
            }
            j = j + 1;
        }
        None
    }
}

/// The world's settings for `name`, or none.
pub open spec fn world_values(world: Option<World>, name: Seq<char>) -> Seq<(Seq<char>, Seq<char>)> {
    match world {
        Some(w) => match config_of(w.blocks@, name, 0) {
            Some(v) => v,
            None => Seq::empty(),
        },
        None => Seq::empty(),
    }
}

/// `provider "aws" { ... }` from the world's `aws` block, if it has one.
pub open spec fn provider_text(world: World) -> Option<Seq<char>> {
    match config_of(world.blocks@, "aws"@, 0) {
        None => None,
        Some(vals) => Some("provider \"aws\" {\n"@ + props_body(vals) + "}\n"@),
    }
}

/// Emit the AWS provider block from the world's `aws` block; `None` when
/// the world has none (the provider is then configured outside).
pub fn provider_block_for(world: &World) -> (r: Option<String>)
    ensures
        opt_view(r) == provider_text(*world),
{
    let aws = match world.config_for("aws") {
        None => return None,
        Some(b) => b,
    };
    let vals = props_chars(aws.values.as_slice());
    let mut out = chars_of("provider \"aws\" {\n");
    let body = props_body_exec(&vals);
    append(&mut out, &body);
    let close = chars_of("}\n");
    append(&mut out, &close);
    Some(string_of(&out))
}

/// The HCL of a projection and the number of adapters that became
/// resource blocks.
#[derive(Debug, Clone)]
pub struct ProjectionResult {
    pub hcl: String,
    pub adapter_count: usize,
}

impl Default for ProjectionResult {
    fn default() -> (r: ProjectionResult)
        ensures
            r.hcl@ == Seq::<char>::empty(),
            r.adapter_count == 0,
    {
        ProjectionResult { hcl: String::new(), adapter_count: 0 }
    }
}

/// The projection's first lines: a comment naming the hecksagon, then the
/// provider block when the world has one.
pub open spec fn projection_head(name: Seq<char>, world: Option<World>) -> Seq<char> {
    "# Generated from hecksagon \""@ + name + "\" — storehouse project terraform\n\n"@ + match world {
        Some(w) => match provider_text(w) {
            Some(t) => t + seq!['\n'],
            None => Seq::empty(),
        },
        None => Seq::empty(),
    }
}

/// The output and count after the adapters before index `n`: each one
/// with a mapped kind and a `name` adds its block and a blank line.
pub open spec fn project_fold(adapters: Seq<IoAdapter>, world: Option<World>, head: Seq<char>, n: int) -> (Seq<char>, int)
    decreases n,
{
    if n <= 0 || n > adapters.len() {
        (head, 0)
    } else {
        let (out, count) = project_fold(adapters, world, head, n - 1);
        let a = adapters[n - 1];
        match (resource_type_of(a.kind@), name_option(props_view(a.options@), 0)) {
            (Some(rt), Some(name)) => {
                let block = resource_text(rt, name, merged(unnamed(props_view(a.options@)), world_values(world, name)));
                let sep = if out.len() > 0 && !ends_with(out, "\n\n"@) { seq!['\n'] } else { Seq::empty() };
                (out + sep + block + seq!['\n'], count + 1)
            },
            _ => (out, count),
        }
    }
}

/// `project_hecksagon`'s result.
pub open spec fn projection_of(h: Hecksagon, world: Option<World>) -> (Seq<char>, int) {
    project_fold(h.io_adapters@, world, projection_head(h.name@, world), h.io_adapters@.len() as int)
}

/// An adapter becomes a resource block: its kind maps to a resource and
/// it has a `name`.
pub open spec fn projectable(a: IoAdapter) -> bool {
    resource_type_of(a.kind@) is Some && name_option(props_view(a.options@), 0) is Some
}

proof fn lemma_project_fold(adapters: Seq<IoAdapter>, world: Option<World>, head: Seq<char>, n: int)
    requires
        0 <= n <= adapters.len(),
    ensures
        head.is_prefix_of(project_fold(adapters, world, head, n).0),
        project_fold(adapters, world, head, n).1 == adapters.take(n).filter(
            |a: IoAdapter| projectable(a),
        ).len(),
    decreases n,
{
    reveal(Seq::filter);
    if n == 0 {
        assert(adapters.take(0) =~= Seq::<IoAdapter>::empty());
        assert(head.is_prefix_of(head)) by {
            assert(head =~= head.subrange(0, head.len() as int));
        }
    } else {
        lemma_project_fold(adapters, world, head, n - 1);
        let (out, count) = project_fold(adapters, world, head, n - 1);
        assert(adapters.take(n).drop_last() =~= adapters.take(n - 1));
        assert(adapters.take(n).last() == adapters[n - 1]);
        let whole = project_fold(adapters, world, head, n).0;
        assert(out.is_prefix_of(whole)) by {
            assert(out =~= whole.subrange(0, out.len() as int));
        }
        assert(head =~= whole.subrange(0, head.len() as int)) by {
            assert forall|k: int| 0 <= k < head.len() implies head[k] == whole[k] by {
                assert(head[k] == out[k]);
                assert(out[k] == whole[k]);
            }
        }
    }
}

/// A projection starts with the comment that names its hecksagon, and
/// counts exactly the adapters that became resource blocks.
pub proof fn law_projection_header_and_count(h: Hecksagon, world: Option<World>)
    ensures
        ("# Generated from hecksagon \""@ + h.name@ + "\" — storehouse project terraform\n\n"@).is_prefix_of(
            projection_of(h, world).0,
        ),
        projection_of(h, world).1 == h.io_adapters@.filter(|a: IoAdapter| projectable(a)).len(),
{
    let adapters = h.io_adapters@;
    let header = "# Generated from hecksagon \""@ + h.name@ + "\" — storehouse project terraform\n\n"@;
    let head = projection_head(h.name@, world);
    lemma_project_fold(adapters, world, head, adapters.len() as int);
    assert(adapters.take(adapters.len() as int) =~= adapters);
    let whole = projection_of(h, world).0;
    assert(header =~= whole.subrange(0, header.len() as int)) by {
        assert forall|k: int| 0 <= k < header.len() implies header[k] == whole[k] by {
            assert(header[k] == head[k]);
            assert(head[k] == whole[k]);
        }
    }
}

/// Project a hecksagon (and, when given, a world) to Terraform HCL: a
/// header comment, the provider block, then one resource block per adapter
/// whose kind maps to a resource and that has a `name`.
pub fn project_hecksagon(hecksagon: &Hecksagon, world: Option<&World>) -> (r: ProjectionResult)
    ensures
        (r.hcl@, r.adapter_count as int) == projection_of(
            *hecksagon,
            match world {
                Some(w) => Some(*w),
                None => None,
            },
        ),
{
    let ghost wo: Option<World> = match world {
        Some(w) => Some(*w),
        None => None,
    };
    let mut out = chars_of("# Generated from hecksagon \"");
    let hn = chars_of(hecksagon.name.as_str());
    append(&mut out, &hn);
    let tail_text = chars_of("\" — storehouse project terraform\n\n");
    append(&mut out, &tail_text);
    match world {
        Some(w) => match provider_block_for(w) {
            Some(p) => {
                let pc = chars_of(p.as_str());
                append(&mut out, &pc);
                out.push('\n');
            },
            None => {},
        },
        None => {},
    }
    assert(out@ =~= projection_head(hecksagon.name@, wo));
    let ghost head = out@;
    let mut count: usize = 0;
    let mut i: usize = 0;
    let adapters = &hecksagon.io_adapters;
    while i < adapters.len()
        invariant
            i <= adapters.len(),
            adapters@ == hecksagon.io_adapters@,
            count <= i,
            wo == match world {
                Some(w) => Some(*w),
                None => None::<World>,
            },
            (out@, count as int) == project_fold(adapters@, wo, head, i as int),
        decreases adapters.len() - i,
    {
        let a = &adapters[i];
        let opts = props_chars(a.options.as_slice());
        match (resource_type_for(a.kind.as_str()), name_from_options(&opts)) {
            (Some(rt), Some(name)) => {
                let filtered = unnamed_exec(&opts);
                let name_s = string_of(&name);
                let wprops: Vec<(Vec<char>, Vec<char>)> = match world {
                    Some(w) => match w.config_for(name_s.as_str()) {
                        Some(b) => props_chars(b.values.as_slice()),
                        None => Vec::new(),
                    },
                    None => Vec::new(),
                };
                assert(wprops@.map_values(|p: (Vec<char>, Vec<char>)| (p.0@, p.1@)) =~= world_values(wo, name@));
                let m = merge_props(&filtered, &wprops);
                let t = chars_of(rt);
                let block = resource_block_chars(&t, &name, &m);
                if out.len() > 0 && !ends_with_str(&out, "\n\n") {
                    out.push('\n');
                }
                append(&mut out, &block);
                out.push('\n');
                count = count + 1;
            },
            _ => {},
        }
        i = i + 1;
    }
    ProjectionResult { hcl: string_of(&out), adapter_count: count }
}

} // verus!

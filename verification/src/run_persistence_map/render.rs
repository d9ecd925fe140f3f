//! The persistence map as a fixed-width table and as JSON.

use vstd::prelude::*;
use crate::ir::{group_views, seq_view};
use crate::run_boot::classify::{category, classify_name};
use crate::run_persistence_map::{Row, RowModel, dedup_adjacent, dedup_exec};
use crate::text::{join_with, chars_of, concat, dec_str, pad_left, pad_left_exec, pad_right, pad_right_exec, replace_all, replace_exec, sort_strings, sort_strs, starts_with, starts_with_str, string_of, strings_view, u64_chars, utf8_len, utf8_len_exec};

verus! {

broadcast use group_views;

/// A value made safe inside a JSON string: backslashes, then quotes,
/// escaped.
pub open spec fn esc(s: Seq<char>) -> Seq<char> {
    replace_all(replace_all(s, "\\"@, "\\\\"@), "\""@, "\\\""@)
}

fn esc_exec(s: &Vec<char>) -> (r: Vec<char>)
    ensures
        r@ == esc(s@),
{
    replace_exec(&replace_exec(s, "\\", "\\\\"), "\"", "\\\"")
}

/// One row as a JSON object.
pub open spec fn row_json(r: RowModel) -> Seq<char> {
    "{\"fqn\":\""@ + esc(r.fqn) + "\",\"declared\":"@
        + match r.declared { Some(d) => "\""@ + esc(d) + "\""@, None => "null"@ }
        + ",\"source\":\""@ + esc(r.source) + "\",\"live_store\":"@ + (if r.live_store { "true"@ } else { "false"@ }) + "}"@
}

/// The items joined with commas.
pub open spec fn commas(items: Seq<Seq<char>>) -> Seq<char> {
    join_with(items, ","@)
}

/// `{"aggregates":[...],"orphans":[...]}`.
pub open spec fn map_json(rows: Seq<RowModel>, orphans: Seq<Seq<char>>) -> Seq<char> {
    "{\"aggregates\":["@ + commas(rows.map_values(|r: RowModel| row_json(r))) + "],\"orphans\":["@
        + commas(orphans.map_values(|o: Seq<char>| "\""@ + esc(o) + "\""@)) + "]}"@
}

fn text_of(s: &String) -> (r: Vec<char>)
    ensures
        r@ == s@,
{
    chars_of(s.as_str())
}

fn row_json_exec(r: &Row) -> (out: Vec<char>)
    ensures
        out@ == row_json(r@),
{
    let mut o = concat(&chars_of("{\"fqn\":\""), &esc_exec(&text_of(&r.fqn)));
    o = concat(&o, &chars_of("\",\"declared\":"));
    let d = match &r.declared {
        Some(d) => concat(&concat(&chars_of("\""), &esc_exec(&text_of(d))), &chars_of("\"")),
        None => chars_of("null"),
    };
    o = concat(&o, &d);
    o = concat(&o, &chars_of(",\"source\":\""));
    o = concat(&o, &esc_exec(&text_of(&r.source)));
    o = concat(&o, &chars_of("\",\"live_store\":"));
    o = concat(&o, &(if r.live_store { chars_of("true") } else { chars_of("false") }));
    concat(&o, &chars_of("}"))
}

fn join_commas(items: &Vec<Vec<char>>) -> (r: Vec<char>)
    ensures
        r@ == commas(crate::text::views(items@)),
{
    let ghost pv = crate::text::views(items@);
    let mut out: Vec<char> = Vec::new();
    let mut i: usize = 0;
    while i < items.len()
        invariant
            i <= items.len(),
            pv == crate::text::views(items@),
            out@ == join_with(pv.take(i as int), ","@),
        decreases items.len() - i,
    {
        assert(pv.take(i + 1).drop_last() =~= pv.take(i as int));
        assert(pv.take(i + 1).last() == items@[i as int]@);
        if i == 0 {
            assert(pv.take(1).len() == 1);
            out = items[0].clone();
        } else {
            out = concat(&concat(&out, &chars_of(",")), &items[i]);
        }
        i = i + 1;
    }
    assert(pv.take(items.len() as int) =~= pv);
    out
}

/// The map as JSON for tooling; values are escaped for backslashes and
/// quotes.
pub fn render_json(rows: &Vec<Row>, orphans: &Vec<String>) -> (r: String)
    ensures
        r@ == map_json(seq_view(rows@), strings_view(orphans@)),
{
    let mut rj: Vec<Vec<char>> = Vec::new();
    let mut i: usize = 0;
    while i < rows.len()
        invariant
            i <= rows.len(),
            crate::text::views(rj@) == seq_view(rows@).map_values(|r: RowModel| row_json(r)).take(i as int),
        decreases rows.len() - i,
    {
        let j = row_json_exec(&rows[i]);
        let ghost b = crate::text::views(rj@);
        rj.push(j);
        assert(crate::text::views(rj@) =~= b.push(j@));
        assert(seq_view(rows@).map_values(|r: RowModel| row_json(r)).take(i + 1)
            =~= seq_view(rows@).map_values(|r: RowModel| row_json(r)).take(i as int).push(j@));
        i = i + 1;
    }
    assert(seq_view(rows@).map_values(|r: RowModel| row_json(r)).take(rows.len() as int)
        =~= seq_view(rows@).map_values(|r: RowModel| row_json(r)));
    let mut oj: Vec<Vec<char>> = Vec::new();
    let mut k: usize = 0;
    while k < orphans.len()
        invariant
            k <= orphans.len(),
            crate::text::views(oj@) == strings_view(orphans@).map_values(|o: Seq<char>| "\""@ + esc(o) + "\""@).take(k as int),
        decreases orphans.len() - k,
    {
        let j = concat(&concat(&chars_of("\""), &esc_exec(&text_of(&orphans[k]))), &chars_of("\""));
        let ghost b = crate::text::views(oj@);
        oj.push(j);
        assert(crate::text::views(oj@) =~= b.push(j@));
        assert(strings_view(orphans@).map_values(|o: Seq<char>| "\""@ + esc(o) + "\""@).take(k + 1)
            =~= strings_view(orphans@).map_values(|o: Seq<char>| "\""@ + esc(o) + "\""@).take(k as int).push(j@));
        k = k + 1;
    }
    assert(strings_view(orphans@).map_values(|o: Seq<char>| "\""@ + esc(o) + "\""@).take(orphans.len() as int)
        =~= strings_view(orphans@).map_values(|o: Seq<char>| "\""@ + esc(o) + "\""@));
    let mut o = concat(&chars_of("{\"aggregates\":["), &join_commas(&rj));
    o = concat(&o, &chars_of("],\"orphans\":["));
    o = concat(&o, &join_commas(&oj));
    o = concat(&o, &chars_of("]}"));
    string_of(&o)
}

// ---------------------------------------------------------------------
// The table
// ---------------------------------------------------------------------

/// How many rows give `src` as their reason.
pub open spec fn count_source(rows: Seq<RowModel>, src: Seq<char>) -> nat
    decreases rows.len(),
{
    if rows.len() == 0 {
        0
    } else {
        count_source(rows.drop_last(), src) + if rows.last().source == src { 1nat } else { 0nat }
    }
}

/// How many rows have a live store.
pub open spec fn count_live(rows: Seq<RowModel>) -> nat
    decreases rows.len(),
{
    if rows.len() == 0 {
        0
    } else {
        count_live(rows.drop_last()) + if rows.last().live_store { 1nat } else { 0nat }
    }
}

/// The widest `fqn`, in bytes, and at least 3.
pub open spec fn fqn_width(rows: Seq<RowModel>) -> int
    decreases rows.len(),
{
    if rows.len() == 0 {
        3
    } else {
        let w = fqn_width(rows.drop_last());
        let l = utf8_len(rows.last().fqn);
        if l > w { l } else { w }
    }
}

/// The distinct reasons, sorted.
pub open spec fn sources(rows: Seq<RowModel>) -> Seq<Seq<char>> {
    dedup_adjacent(sort_strs(rows.map_values(|r: RowModel| r.source)))
}

/// `  {n:>4}  {src}` for each reason.
pub open spec fn summary_lines(srcs: Seq<Seq<char>>, rows: Seq<RowModel>) -> Seq<char>
    decreases srcs.len(),
{
    if srcs.len() == 0 {
        Seq::empty()
    } else {
        summary_lines(srcs.drop_last(), rows) + "  "@ + pad_left(dec_str(count_source(rows, srcs.last())), 4, ' ')
            + "  "@ + srcs.last() + "\n"@
    }
}

/// One table row.
pub open spec fn row_line(r: RowModel, w: int) -> Seq<char> {
    pad_right(r.fqn, w) + "  "@ + pad_right(r.source, 20) + "  "@ + (if r.live_store { "●"@ } else { Seq::empty() }) + "\n"@
}

pub open spec fn row_lines(rows: Seq<RowModel>, w: int) -> Seq<char>
    decreases rows.len(),
{
    if rows.len() == 0 { Seq::empty() } else { row_lines(rows.drop_last(), w) + row_line(rows.last(), w) }
}

/// The category an orphan is accounted under.
pub open spec fn orphan_category(o: Seq<char>) -> Seq<char> {
    if starts_with(o, "process_managers/"@) { "pm-instance"@ } else { category(o) }
}

/// The orphans under one category, in order.
pub open spec fn orphans_under(orphans: Seq<Seq<char>>, cat: Seq<char>) -> Seq<Seq<char>>
    decreases orphans.len(),
{
    if orphans.len() == 0 {
        Seq::empty()
    } else {
        orphans_under(orphans.drop_last(), cat) + if orphan_category(orphans.last()) == cat { seq![orphans.last()] } else { Seq::empty() }
    }
}

/// The categories in their sorted order.
pub open spec fn orphan_categories() -> Seq<Seq<char>> {
    seq!["linked"@, "pm-instance"@, "private"@, "retired"@, "unknown"@]
}

/// `    {o}` for each orphan.
pub open spec fn item_lines(items: Seq<Seq<char>>) -> Seq<char>
    decreases items.len(),
{
    if items.len() == 0 { Seq::empty() } else { item_lines(items.drop_last()) + "    "@ + items.last() + "\n"@ }
}

/// The group of each non-empty category.
pub open spec fn category_groups(cats: Seq<Seq<char>>, orphans: Seq<Seq<char>>) -> Seq<char>
    decreases cats.len(),
{
    if cats.len() == 0 {
        Seq::empty()
    } else {
        let items = orphans_under(orphans, cats.last());
        category_groups(cats.drop_last(), orphans) + if items.len() > 0 {
            "  ["@ + cats.last() + "] ("@ + dec_str(items.len()) + "):\n"@ + item_lines(items)
        } else {
            Seq::empty()
        }
    }
}

pub open spec fn note_text() -> Seq<char> {
    "\nnote: :memory is INERT until apply_memory_persistence lands (Phase B step 0) —\nevery unwired AND every declared-:memory aggregate resolves to heki TODAY.\n"@
}

/// The table's opening: counts, the information directory, and the
/// summary by reason.
pub open spec fn table_head(rows: Seq<RowModel>, info_dir: Seq<char>) -> Seq<char> {
    "persistence-map — "@ + dec_str(rows.len()) + " aggregates\n"@ + "info_dir: "@ + info_dir + "\n\n"@
        + "summary by source:\n"@ + summary_lines(sources(rows), rows)
        + "  "@ + pad_left(dec_str(count_live(rows)), 4, ' ') + "  (of which have a live store)\n\n"@
}

/// The column header, the rule under it, and one line per row.
pub open spec fn table_body(rows: Seq<RowModel>) -> Seq<char> {
    let w = fqn_width(rows);
    pad_right("FQN"@, w) + "  "@ + pad_right("SOURCE"@, 20) + "  live\n"@
        + Seq::new((w + 28) as nat, |k: int| '-') + "\n"@
        + row_lines(rows, w)
}

/// The orphan stores, grouped by category.
pub open spec fn orphan_section(orphans: Seq<Seq<char>>) -> Seq<char> {
    "\norphan stores ("@ + dec_str(orphans.len()) + " — live under information/, no aggregate ; "@
        + dec_str(orphans_under(orphans, "unknown"@).len()) + " genuinely UNACCOUNTED):\n"@
        + (if orphans.len() == 0 { "  (none)\n"@ } else { category_groups(orphan_categories(), orphans) })
}

/// The whole table.
pub open spec fn table(rows: Seq<RowModel>, orphans: Seq<Seq<char>>, info_dir: Seq<char>) -> Seq<char> {
    table_head(rows, info_dir) + table_body(rows) + orphan_section(orphans) + note_text()
}

fn orphans_under_exec(orphans: &Vec<String>, cat: &str) -> (r: Vec<Vec<char>>)
    ensures
        crate::text::views(r@) == orphans_under(strings_view(orphans@), cat@),
{
    let ghost ov = strings_view(orphans@);
    let mut out: Vec<Vec<char>> = Vec::new();
    let mut i: usize = 0;
    assert(ov.take(0) =~= Seq::<Seq<char>>::empty());
    while i < orphans.len()
        invariant
            i <= orphans.len(),
            ov == strings_view(orphans@),
            crate::text::views(out@) == orphans_under(ov.take(i as int), cat@),
        decreases orphans.len() - i,
    {
        assert(ov.take(i + 1).drop_last() =~= ov.take(i as int));
        assert(ov.take(i + 1).last() == orphans@[i as int]@);
        let o = text_of(&orphans[i]);
        let c = if starts_with_str(&o, "process_managers/") { chars_of("pm-instance") } else { chars_of(classify_name(orphans[i].as_str())) };
        if crate::text::eq_str(&c, cat) {
            let ghost b = crate::text::views(out@);
            out.push(o);
            assert(crate::text::views(out@) =~= b + seq![orphans@[i as int]@]);
        } else {
            assert(crate::text::views(out@) =~= crate::text::views(out@) + Seq::<Seq<char>>::empty());
        }
        i = i + 1;
    }
    assert(ov.take(orphans.len() as int) =~= ov);
    out
}

fn item_lines_exec(items: &Vec<Vec<char>>) -> (r: Vec<char>)
    ensures
        r@ == item_lines(crate::text::views(items@)),
{
    let ghost iv = crate::text::views(items@);
    let mut out: Vec<char> = Vec::new();
    let mut i: usize = 0;
    assert(iv.take(0) =~= Seq::<Seq<char>>::empty());
    while i < items.len()
        invariant
            i <= items.len(),
            iv == crate::text::views(items@),
            out@ == item_lines(iv.take(i as int)),
        decreases items.len() - i,
    {
        assert(iv.take(i + 1).drop_last() =~= iv.take(i as int));
        assert(iv.take(i + 1).last() == items@[i as int]@);
        out = concat(&concat(&concat(&out, &chars_of("    ")), &items[i]), &chars_of("\n"));
        i = i + 1;
    }
    assert(iv.take(items.len() as int) =~= iv);
    out
}

fn category_groups_exec(orphans: &Vec<String>) -> (r: Vec<char>)
    ensures
        r@ == category_groups(orphan_categories(), strings_view(orphans@)),
{
    let cats: [&str; 5] = ["linked", "pm-instance", "private", "retired", "unknown"];
    let ghost cs = orphan_categories();
    assert(cats@.map_values(|c: &str| c@) =~= cs);
    let mut out: Vec<char> = Vec::new();
    let mut i: usize = 0;
    assert(cs.take(0) =~= Seq::<Seq<char>>::empty());
    while i < 5
        invariant
            i <= 5,
            cs == orphan_categories(),
            cats@.map_values(|c: &str| c@) == cs,
            out@ == category_groups(cs.take(i as int), strings_view(orphans@)),
        decreases 5 - i,
    {
        assert(cs.take(i + 1).drop_last() =~= cs.take(i as int));
        assert(cs.take(i + 1).last() == cats@[i as int]@);
        let items = orphans_under_exec(orphans, cats[i]);
        if items.len() > 0 {
            let mut g = concat(&concat(&chars_of("  ["), &chars_of(cats[i])), &chars_of("] ("));
            g = concat(&g, &u64_chars(items.len() as u64));
            g = concat(&g, &chars_of("):\n"));
            g = concat(&g, &item_lines_exec(&items));
            out = concat(&out, &g);
        } else {
            assert(out@ =~= out@ + Seq::<char>::empty());
        }
        i = i + 1;
    }
    assert(cs.take(5) =~= cs);
    out
}

fn table_head_exec(rows: &Vec<Row>, info_dir: &str) -> (o: Vec<char>)
    ensures
        o@ == table_head(seq_view(rows@), info_dir@),
{
    let ghost rv = seq_view(rows@);
    let mut o = concat(&chars_of("persistence-map — "), &u64_chars(rows.len() as u64));
    o = concat(&o, &chars_of(" aggregates\n"));
    o = concat(&o, &chars_of("info_dir: "));
    o = concat(&o, &chars_of(info_dir));
    o = concat(&o, &chars_of("\n\n"));
    o = concat(&o, &chars_of("summary by source:\n"));
    o = concat(&o, &summary_exec(rows));
    let mut live: u64 = 0;
    let mut k: usize = 0;
    while k < rows.len()
        invariant
            k <= rows.len(),
            rv == seq_view(rows@),
            live == count_live(rv.take(k as int)),
            live <= k,
        decreases rows.len() - k,
    {
        assert(rv.take(k + 1).drop_last() =~= rv.take(k as int));
        if rows[k].live_store {
            live = live + 1;
        }
        k = k + 1;
    }
    assert(rv.take(rows.len() as int) =~= rv);
    o = concat(&o, &chars_of("  "));
    o = concat(&o, &pad_left_exec(&u64_chars(live), 4, ' '));
    concat(&o, &chars_of("  (of which have a live store)\n\n"))
}

fn summary_exec(rows: &Vec<Row>) -> (summary: Vec<char>)
    ensures
        summary@ == summary_lines(sources(seq_view(rows@)), seq_view(rows@)),
{
    let ghost rv = seq_view(rows@);
    let mut all_sources: Vec<String> = Vec::new();
    let mut i: usize = 0;
    while i < rows.len()
        invariant
            i <= rows.len(),
            rv == seq_view(rows@),
            strings_view(all_sources@) == rv.map_values(|r: RowModel| r.source).take(i as int),
        decreases rows.len() - i,
    {
        let ghost b = strings_view(all_sources@);
        all_sources.push(string_of(&text_of(&rows[i].source)));
        assert(strings_view(all_sources@) =~= b.push(rows@[i as int].source@));
        assert(rv.map_values(|r: RowModel| r.source).take(i + 1) =~= b.push(rows@[i as int].source@));
        i = i + 1;
    }
    assert(rv.map_values(|r: RowModel| r.source).take(rows.len() as int) =~= rv.map_values(|r: RowModel| r.source));
    let srcs = dedup_exec(&sort_strings(&all_sources));
    let ghost sv = strings_view(srcs@);
    let mut summary: Vec<char> = Vec::new();
    let mut s: usize = 0;
    assert(sv.take(0) =~= Seq::<Seq<char>>::empty());
    while s < srcs.len()
        invariant
            s <= srcs.len(),
            sv == strings_view(srcs@),
            rv == seq_view(rows@),
            summary@ == summary_lines(sv.take(s as int), rv),
        decreases srcs.len() - s,
    {
        let src = text_of(&srcs[s]);
        let mut n: u64 = 0;
        let mut k: usize = 0;
        while k < rows.len()
            invariant
                k <= rows.len(),
                rv == seq_view(rows@),
                n == count_source(rv.take(k as int), src@),
                n <= k,
            decreases rows.len() - k,
        {
            assert(rv.take(k + 1).drop_last() =~= rv.take(k as int));
            if crate::text::eq(&text_of(&rows[k].source), &src) {
                n = n + 1;
            }
            k = k + 1;
        }
        assert(rv.take(rows.len() as int) =~= rv);
        assert(sv.take(s + 1).drop_last() =~= sv.take(s as int));
        assert(sv.take(s + 1).last() == src@);
        let mut line = concat(&concat(&summary, &chars_of("  ")), &pad_left_exec(&u64_chars(n), 4, ' '));
        line = concat(&concat(&concat(&line, &chars_of("  ")), &src), &chars_of("\n"));
        summary = line;
        s = s + 1;
    }
    assert(sv.take(srcs.len() as int) =~= sv);
    summary
}

fn table_body_exec(rows: &Vec<Row>) -> (o: Vec<char>)
    requires
        fqn_width(seq_view(rows@)) + 28 <= usize::MAX,
    ensures
        o@ == table_body(seq_view(rows@)),
{
    let ghost rv = seq_view(rows@);
    let mut w: u128 = 3;
    let mut k: usize = 0;
    while k < rows.len()
        invariant
            k <= rows.len(),
            rv == seq_view(rows@),
            w == fqn_width(rv.take(k as int)),
        decreases rows.len() - k,
    {
        assert(rv.take(k + 1).drop_last() =~= rv.take(k as int));
        let l = utf8_len_exec(&text_of(&rows[k].fqn));
        if l > w {
            w = l;
        }
        k = k + 1;
    }
    assert(rv.take(rows.len() as int) =~= rv);
    let wu = w as usize;
    let mut o = concat(&pad_right_exec(&chars_of("FQN"), wu), &chars_of("  "));
    o = concat(&o, &pad_right_exec(&chars_of("SOURCE"), 20));
    o = concat(&o, &chars_of("  live\n"));
    let mut dashes: Vec<char> = Vec::new();
    while dashes.len() < wu + 28
        invariant
            dashes.len() <= wu + 28,
            wu + 28 <= usize::MAX,
            dashes@ == Seq::new(dashes.len() as nat, |k: int| '-'),
        decreases wu + 28 - dashes.len(),
    {
        dashes.push('-');
        assert(dashes@ =~= Seq::new(dashes.len() as nat, |k: int| '-'));
    }
    o = concat(&o, &dashes);
    o = concat(&o, &chars_of("\n"));
    let mut lines: Vec<char> = Vec::new();
    let mut k: usize = 0;
    assert(rv.take(0) =~= Seq::<RowModel>::empty());
    while k < rows.len()
        invariant
            k <= rows.len(),
            rv == seq_view(rows@),
            wu as int == fqn_width(rv),
            lines@ == row_lines(rv.take(k as int), wu as int),
        decreases rows.len() - k,
    {
        assert(rv.take(k + 1).drop_last() =~= rv.take(k as int));
        assert(rv.take(k + 1).last() == rows@[k as int]@);
        let r = &rows[k];
        let mut l = concat(&pad_right_exec(&text_of(&r.fqn), wu), &chars_of("  "));
        l = concat(&l, &pad_right_exec(&text_of(&r.source), 20));
        l = concat(&l, &chars_of("  "));
        l = concat(&l, &(if r.live_store { chars_of("●") } else { Vec::new() }));
        l = concat(&l, &chars_of("\n"));
        lines = concat(&lines, &l);
        k = k + 1;
    }
    assert(rv.take(rows.len() as int) =~= rv);
    concat(&o, &lines)
}

fn orphan_section_exec(orphans: &Vec<String>) -> (o: Vec<char>)
    ensures
        o@ == orphan_section(strings_view(orphans@)),
{
    let mut o = concat(&chars_of("\norphan stores ("), &u64_chars(orphans.len() as u64));
    o = concat(&o, &chars_of(" — live under information/, no aggregate ; "));
    let unknown = orphans_under_exec(orphans, "unknown");
    o = concat(&o, &u64_chars(unknown.len() as u64));
    o = concat(&o, &chars_of(" genuinely UNACCOUNTED):\n"));
    if orphans.len() == 0 {
        concat(&o, &chars_of("  (none)\n"))
    } else {
        concat(&o, &category_groups_exec(orphans))
    }
}

/// The fixed-width table: the summary by reason, the rows, then the
/// orphan stores grouped by boundary category.
pub fn render_table(rows: &Vec<Row>, orphans: &Vec<String>, info_dir: &str) -> (r: String)
    requires
        fqn_width(seq_view(rows@)) + 28 <= usize::MAX,
    ensures
        r@ == table(seq_view(rows@), strings_view(orphans@), info_dir@),
{
    let o = concat(&table_head_exec(rows, info_dir), &table_body_exec(rows));
    let o = concat(&o, &orphan_section_exec(orphans));
    let o = concat(&o, &chars_of("\nnote: :memory is INERT until apply_memory_persistence lands (Phase B step 0) —\nevery unwired AND every declared-:memory aggregate resolves to heki TODAY.\n"));
    string_of(&o)
}

} // verus!

//! The persistence map: which backend every aggregate's persistence port
//! resolves to and why, computed from the hecksagons, together with the
//! live stores no aggregate claims.

pub mod render;

use vstd::prelude::*;
use crate::helpers::{snake, to_snake_case};
use crate::ir::{Aggregate, AggregateModel, Domain, DomainModel, group_views, opt_view, seq_view};
use crate::projection::terraform::Hecksagon;
use crate::text::{chars_of, concat, eq, join_exec, join_with, key_less, key_less_exec, lemma_key_less_irreflexive, lemma_key_less_transitive, sort_strings, sort_strs, string_of, strings_view};

verus! {

broadcast use group_views;

/// One aggregate's persistence resolution.
#[derive(Debug, Clone, PartialEq, Eq)]
pub struct Row {
    /// `context::aggregate`, or the bare name without a context.
    pub fqn: String,
    /// The adapter the governing hecksagons declare (`a|b` in conflict).
    pub declared: Option<String>,
    /// Why: `declared :heki`, `unwired → default`, `CONFLICT :a vs :b`.
    pub source: String,
    /// A live `.heki` store exists for the aggregate.
    pub live_store: bool,
}

pub struct RowModel {
    pub fqn: Seq<char>,
    pub declared: Option<Seq<char>>,
    pub source: Seq<char>,
    pub live_store: bool,
}

impl View for Row {
    type V = RowModel;

    open spec fn view(&self) -> RowModel {
        RowModel { fqn: self.fqn@, declared: opt_view(self.declared), source: self.source@, live_store: self.live_store }
    }
}

/// The repository key of an aggregate.
pub open spec fn repo_key(ctx: Option<Seq<char>>, name: Seq<char>) -> Seq<char> {
    match ctx {
        Some(c) => c + "::"@ + name,
        None => name,
    }
}

/// The persistence adapters the hecksagons named `ctx` declare, in order.
pub open spec fn adapters_of(hs: Seq<Hecksagon>, ctx: Seq<char>) -> Seq<Seq<char>>
    decreases hs.len(),
{
    if hs.len() == 0 {
        Seq::empty()
    } else {
        let h = hs.last();
        adapters_of(hs.drop_last(), ctx) + match h.persistence {
            Some(p) => if h.name@ == ctx { seq![p@] } else { Seq::empty() },
            None => Seq::empty(),
        }
    }
}

/// Runs of equal neighbours collapsed to one.
pub open spec fn dedup_adjacent(s: Seq<Seq<char>>) -> Seq<Seq<char>>
    decreases s.len(),
{
    if s.len() <= 1 {
        s
    } else {
        let d = dedup_adjacent(s.drop_last());
        if s.last() == s[s.len() - 2] { d } else { d.push(s.last()) }
    }
}

/// The distinct adapters, sorted.
pub open spec fn adapter_set(hs: Seq<Hecksagon>, ctx: Seq<char>) -> Seq<Seq<char>> {
    dedup_adjacent(sort_strs(adapters_of(hs, ctx)))
}

/// Each adapter as `:name`.
pub open spec fn colon_names(set: Seq<Seq<char>>) -> Seq<Seq<char>> {
    set.map_values(|a: Seq<char>| ":"@ + a)
}

/// The declared adapter and the reason for a set of adapters.
pub open spec fn resolution(set: Seq<Seq<char>>) -> (Option<Seq<char>>, Seq<char>) {
    if set.len() == 0 {
        (None, "unwired → default"@)
    } else if set.len() == 1 {
        (Some(set[0]), "declared :"@ + set[0])
    } else {
        (Some(join_with(colon_names(set), "|"@)), "CONFLICT "@ + join_with(colon_names(set), " vs "@))
    }
}

/// A live store `(stem, process manager)` list holds the aggregate store
/// `stem`.
pub open spec fn live_has(live: Seq<(Seq<char>, bool)>, stem: Seq<char>) -> bool {
    exists|i: int| 0 <= i < live.len() && live[i].0 == stem && !live[i].1
}

/// The row of one aggregate.
pub open spec fn row_of(a: AggregateModel, hs: Seq<Hecksagon>, live: Seq<(Seq<char>, bool)>) -> RowModel {
    let set = match a.context { Some(c) => adapter_set(hs, c), None => Seq::empty() };
    let (declared, source) = resolution(set);
    RowModel { fqn: repo_key(a.context, a.name), declared, source, live_store: live_has(live, snake(a.name)) }
}

/// Where a stable insertion by `fqn` puts `x`.
pub open spec fn row_pos(s: Seq<RowModel>, x: RowModel, j: int) -> int
    decreases s.len() - j,
{
    if j < 0 || j >= s.len() {
        s.len() as int
    } else if key_less(x.fqn, s[j].fqn) {
        j
    } else {
        row_pos(s, x, j + 1)
    }
}

pub proof fn lemma_row_pos(s: Seq<RowModel>, x: RowModel, j: int)
    requires
        0 <= j <= s.len(),
    ensures
        j <= row_pos(s, x, j) <= s.len(),
    decreases s.len() - j,
{
    if j < s.len() && !key_less(x.fqn, s[j].fqn) {
        lemma_row_pos(s, x, j + 1);
    }
}

/// The rows sorted by `fqn`, stably.
pub open spec fn sort_rows(s: Seq<RowModel>) -> Seq<RowModel>
    decreases s.len(),
{
    if s.len() == 0 {
        Seq::empty()
    } else {
        let t = sort_rows(s.drop_last());
        t.insert(row_pos(t, s.last(), 0), s.last())
    }
}

/// Consecutive equal rows collapsed to one.
pub open spec fn dedup_rows(s: Seq<RowModel>) -> Seq<RowModel>
    decreases s.len(),
{
    if s.len() <= 1 {
        s
    } else {
        let d = dedup_rows(s.drop_last());
        if s.last() == s[s.len() - 2] { d } else { d.push(s.last()) }
    }
}

/// The rows of every aggregate, sorted by `fqn`, repeats removed.
pub open spec fn rows_of(d: DomainModel, hs: Seq<Hecksagon>, live: Seq<(Seq<char>, bool)>) -> Seq<RowModel> {
    dedup_rows(sort_rows(d.aggregates.map_values(|a: AggregateModel| row_of(a, hs, live))))
}

pub open spec fn live_view(live: Seq<(String, bool)>) -> Seq<(Seq<char>, bool)> {
    live.map_values(|p: (String, bool)| (p.0@, p.1))
}

fn text_of(s: &String) -> (r: Vec<char>)
    ensures
        r@ == s@,
{
    chars_of(s.as_str())
}

fn adapters_exec(hs: &Vec<Hecksagon>, ctx: &Vec<char>) -> (r: Vec<String>)
    ensures
        strings_view(r@) == adapters_of(hs@, ctx@),
{
    let mut out: Vec<String> = Vec::new();
    let mut i: usize = 0;
    assert(hs@.take(0) =~= Seq::<Hecksagon>::empty());
    while i < hs.len()
        invariant
            i <= hs.len(),
            strings_view(out@) == adapters_of(hs@.take(i as int), ctx@),
        decreases hs.len() - i,
    {
        assert(hs@.take(i + 1).drop_last() =~= hs@.take(i as int));
        assert(hs@.take(i + 1).last() == hs@[i as int]);
        let h = &hs[i];
        match &h.persistence {
            Some(p) => {
                if eq(&text_of(&h.name), ctx) {
                    let ghost b = strings_view(out@);
                    out.push(string_of(&text_of(p)));
                    assert(strings_view(out@) =~= b.push(p@));
                } else {
                    assert(strings_view(out@) =~= strings_view(out@) + Seq::<Seq<char>>::empty());
                }
            },
            None => {
                assert(strings_view(out@) =~= strings_view(out@) + Seq::<Seq<char>>::empty());
            },
        }
        i = i + 1;
    }
    assert(hs@.take(hs.len() as int) =~= hs@);
    out
}

fn dedup_exec(s: &Vec<String>) -> (r: Vec<String>)
    ensures
        strings_view(r@) == dedup_adjacent(strings_view(s@)),
{
    let ghost sv = strings_view(s@);
    let mut out: Vec<String> = Vec::new();
    let mut i: usize = 0;
    assert(sv.take(0) =~= Seq::<Seq<char>>::empty());
    while i < s.len()
        invariant
            i <= s.len(),
            sv == strings_view(s@),
            strings_view(out@) == dedup_adjacent(sv.take(i as int)),
        decreases s.len() - i,
    {
        let ghost t = sv.take(i + 1);
        assert(t.drop_last() =~= sv.take(i as int));
        assert(t.last() == s@[i as int]@);
        let cur = text_of(&s[i]);
        let keep = if i == 0 {
            true
        } else {
            assert(t[t.len() - 2] == s@[i - 1]@);
            !eq(&cur, &text_of(&s[i - 1]))
        };
        if keep {
            let ghost b = strings_view(out@);
            out.push(string_of(&cur));
            assert(strings_view(out@) =~= b.push(cur@));
            if i == 0 {
                assert(t =~= seq![cur@]);
            }
        }
        i = i + 1;
    }
    assert(sv.take(s.len() as int) =~= sv);
    out
}

fn resolution_exec(set: &Vec<String>) -> (r: (Option<String>, String))
    ensures
        ({
            let (d, s) = resolution(strings_view(set@));
            opt_view(r.0) == d && r.1@ == s
        }),
{
    if set.len() == 0 {
        return (None, string_of(&chars_of("unwired → default")));
    }
    if set.len() == 1 {
        let a = text_of(&set[0]);
        return (Some(string_of(&a)), string_of(&concat(&chars_of("declared :"), &a)));
    }
    let mut names: Vec<Vec<char>> = Vec::new();
    let mut i: usize = 0;
    while i < set.len()
        invariant
            i <= set.len(),
            crate::text::views(names@) == colon_names(strings_view(set@)).take(i as int),
        decreases set.len() - i,
    {
        let n = concat(&chars_of(":"), &text_of(&set[i]));
        let ghost b = crate::text::views(names@);
        assert(strings_view(set@)[i as int] == set@[i as int]@);
        assert(colon_names(strings_view(set@))[i as int] == n@);
        names.push(n);
        assert(crate::text::views(names@) =~= b.push(n@));
        assert(colon_names(strings_view(set@)).take(i + 1) =~= colon_names(strings_view(set@)).take(i as int).push(n@));
        i = i + 1;
    }
    assert(colon_names(strings_view(set@)).take(set.len() as int) =~= colon_names(strings_view(set@)));
    let declared = join_exec(&names, "|");
    let source = concat(&chars_of("CONFLICT "), &join_exec(&names, " vs "));
    (Some(string_of(&declared)), string_of(&source))
}

fn live_has_exec(live: &Vec<(String, bool)>, stem: &Vec<char>) -> (r: bool)
    ensures
        r == live_has(live_view(live@), stem@),
{
    let ghost lv = live_view(live@);
    let mut i: usize = 0;
    while i < live.len()
        invariant
            i <= live.len(),
            lv == live_view(live@),
            forall|k: int| 0 <= k < i ==> !(lv[k].0 == stem@ && !lv[k].1),
        decreases live.len() - i,
    {
        if !live[i].1 && eq(&text_of(&live[i].0), stem) {
            assert(lv[i as int].0 == stem@ && !lv[i as int].1);
            return true;
        }
        i = i + 1;
    }
    false
}

fn row_exec(a: &Aggregate, hs: &Vec<Hecksagon>, live: &Vec<(String, bool)>) -> (r: Row)
    ensures
        r@ == row_of(a@, hs@, live_view(live@)),
{
    proof { reveal_strlit("::"); }
    let set = match &a.context {
        Some(c) => dedup_exec(&sort_strings(&adapters_exec(hs, &text_of(c)))),
        None => {
            let v: Vec<String> = Vec::new();
            assert(strings_view(v@) =~= Seq::<Seq<char>>::empty());
            v
        },
    };
    let (declared, source) = resolution_exec(&set);
    let name = text_of(&a.name);
    let fqn = match &a.context {
        Some(c) => concat(&concat(&text_of(c), &chars_of("::")), &name),
        None => name.clone(),
    };
    let snake_name = to_snake_case(a.name.as_str());
    let live_store = live_has_exec(live, &text_of(&snake_name));
    Row { fqn: string_of(&fqn), declared, source, live_store }
}

fn rows_equal(x: &Row, y: &Row) -> (r: bool)
    ensures
        r == (x@ == y@),
{
    let d = match (&x.declared, &y.declared) {
        (Some(a), Some(b)) => eq(&text_of(a), &text_of(b)),
        (None, None) => true,
        _ => false,
    };
    eq(&text_of(&x.fqn), &text_of(&y.fqn)) && d && eq(&text_of(&x.source), &text_of(&y.source))
        && x.live_store == y.live_store
}

/// The per-aggregate rows from the domain, its hecksagons, and the live
/// stores found under the information directory (`(stem, is a process
/// manager instance)`): sorted by `fqn`, with repeated rows removed. A
/// context declared with different adapters becomes a `CONFLICT` row.
pub fn build_rows(domain: &Domain, hecksagons: &Vec<Hecksagon>, live: &Vec<(String, bool)>) -> (r: Vec<Row>)
    ensures
        seq_view(r@) == rows_of(domain@, hecksagons@, live_view(live@)),
{
    let ghost all = domain@.aggregates.map_values(|a: AggregateModel| row_of(a, hecksagons@, live_view(live@)));
    let mut sorted: Vec<Row> = Vec::new();
    let mut i: usize = 0;
    assert(all.take(0) =~= Seq::<RowModel>::empty());
    while i < domain.aggregates.len()
        invariant
            i <= domain.aggregates.len(),
            all == domain@.aggregates.map_values(|a: AggregateModel| row_of(a, hecksagons@, live_view(live@))),
            seq_view(sorted@) == sort_rows(all.take(i as int)),
        decreases domain.aggregates.len() - i,
    {
        let row = row_exec(&domain.aggregates[i], hecksagons, live);
        assert(all.take(i + 1).drop_last() =~= all.take(i as int));
        assert(all.take(i + 1).last() == row@);
        let ghost sv = seq_view(sorted@);
        proof { lemma_row_pos(sv, row@, 0); }
        let key = text_of(&row.fqn);
        let mut j: usize = 0;
        while j < sorted.len() && !key_less_exec(&key, &text_of(&sorted[j].fqn))
            invariant
                j <= sorted.len(),
                sv == seq_view(sorted@),
                key@ == row@.fqn,
                row_pos(sv, row@, j as int) == row_pos(sv, row@, 0),
            decreases sorted.len() - j,
        {
            j = j + 1;
        }
        sorted.insert(j, row);
        assert(seq_view(sorted@) =~= sv.insert(j as int, row@));
        i = i + 1;
    }
    assert(all.take(domain.aggregates.len() as int) =~= all);
    let ghost st = seq_view(sorted@);
    let mut out: Vec<Row> = Vec::new();
    let mut k: usize = 0;
    let mut rest = sorted;
    let total = rest.len();
    let mut prev: Option<Row> = None;
    assert(st.take(0) =~= Seq::<RowModel>::empty());
    while rest.len() > 0
        invariant
            k + rest.len() == st.len(),
            st.len() == total,
            seq_view(rest@) == st.subrange(k as int, st.len() as int),
            seq_view(out@) == dedup_rows(st.take(k as int)),
            k == 0 <==> prev is None,
            prev matches Some(p) ==> k > 0 && p@ == st[k - 1],
        decreases rest.len(),
    {
        let ghost old_rest = rest@;
        let row = rest.remove(0);
        assert(seq_view(old_rest)[0] == row@);
        assert(st[k as int] == row@) by {
            assert(st.subrange(k as int, st.len() as int)[0] == st[k as int]);
        }
        assert(seq_view(rest@) =~= seq_view(old_rest).drop_first());
        assert(seq_view(rest@) =~= st.subrange(k + 1, st.len() as int));
        let ghost t = st.take(k + 1);
        assert(t.drop_last() =~= st.take(k as int));
        assert(t.last() == row@);
        let keep = match &prev {
            Some(p) => {
                assert(t[t.len() - 2] == p@);
                !rows_equal(&row, p)
            },
            None => {
                assert(t =~= seq![row@]);
                true
            },
        };
        if keep {
            let ghost b = seq_view(out@);
            out.push(row.clone_row());
            assert(seq_view(out@) =~= b.push(row@));
        }
        prev = Some(row);
        k = k + 1;
    }
    assert(st.take(st.len() as int) =~= st);
    out
}

impl Row {
    /// A copy of the row.
    pub fn clone_row(&self) -> (r: Row)
        ensures
            r@ == self@,
    {
        let declared = match &self.declared {
            Some(d) => Some(string_of(&text_of(d))),
            None => None,
        };
        Row { fqn: string_of(&text_of(&self.fqn)), declared, source: string_of(&text_of(&self.source)), live_store: self.live_store }
    }
}

/// The aggregate stores claimed, by snake-cased name.
pub open spec fn claimed(d: DomainModel, stem: Seq<char>) -> bool {
    exists|i: int| 0 <= i < d.aggregates.len() && snake(d.aggregates[i].name) == snake(stem)
}

/// The live stores no aggregate claims (compared snake-cased on both
/// sides), process-manager instances prefixed `process_managers/`, in
/// listing order.
pub open spec fn orphans_in(d: DomainModel, live: Seq<(Seq<char>, bool)>) -> Seq<Seq<char>>
    decreases live.len(),
{
    if live.len() == 0 {
        Seq::empty()
    } else {
        let (stem, pm) = live.last();
        orphans_in(d, live.drop_last()) + if claimed(d, stem) {
            Seq::empty()
        } else {
            seq![if pm { "process_managers/"@ + stem } else { stem }]
        }
    }
}

/// The live stores no aggregate claims, sorted.
pub fn find_orphans(domain: &Domain, live: &Vec<(String, bool)>) -> (r: Vec<String>)
    ensures
        strings_view(r@) == sort_strs(orphans_in(domain@, live_view(live@))),
{
    let ghost dv = domain@;
    let mut names: Vec<Vec<char>> = Vec::new();
    let mut a: usize = 0;
    while a < domain.aggregates.len()
        invariant
            a <= domain.aggregates.len(),
            dv == domain@,
            names@.len() == a,
            forall|k: int| 0 <= k < a ==> #[trigger] names@[k]@ == snake(dv.aggregates[k].name),
        decreases domain.aggregates.len() - a,
    {
        names.push(text_of(&to_snake_case(domain.aggregates[a].name.as_str())));
        a = a + 1;
    }
    let ghost lv = live_view(live@);
    let mut out: Vec<String> = Vec::new();
    let mut i: usize = 0;
    assert(lv.take(0) =~= Seq::<(Seq<char>, bool)>::empty());
    while i < live.len()
        invariant
            i <= live.len(),
            dv == domain@,
            lv == live_view(live@),
            names@.len() == dv.aggregates.len(),
            forall|k: int| 0 <= k < names@.len() ==> #[trigger] names@[k]@ == snake(dv.aggregates[k].name),
            strings_view(out@) == orphans_in(dv, lv.take(i as int)),
        decreases live.len() - i,
    {
        assert(lv.take(i + 1).drop_last() =~= lv.take(i as int));
        assert(lv.take(i + 1).last() == lv[i as int]);
        let stem = text_of(&live[i].0);
        let s = text_of(&to_snake_case(live[i].0.as_str()));
        let mut found = false;
        let mut k: usize = 0;
        while k < names.len()
            invariant
                k <= names.len(),
                names@.len() == dv.aggregates.len(),
                forall|m: int| 0 <= m < names@.len() ==> #[trigger] names@[m]@ == snake(dv.aggregates[m].name),
                found == exists|m: int| 0 <= m < k && snake(dv.aggregates[m].name) == s@,
            decreases names.len() - k,
        {
            let same = eq(&names[k], &s);
            assert(names@[k as int]@ == snake(dv.aggregates[k as int].name));
            if same {
                found = true;
            }
            assert(found == exists|m: int| 0 <= m < k + 1 && snake(dv.aggregates[m].name) == s@) by {
                if same {
                    assert(snake(dv.aggregates[k as int].name) == s@);
                }
            }
            k = k + 1;
        }
        assert(found == claimed(dv, stem@));
        if !found {
            let shown = if live[i].1 { concat(&chars_of("process_managers/"), &stem) } else { stem };
            let ghost b = strings_view(out@);
            out.push(string_of(&shown));
            assert(strings_view(out@) =~= b + seq![shown@]);
        } else {
            assert(strings_view(out@) =~= strings_view(out@) + Seq::<Seq<char>>::empty());
        }
        i = i + 1;
    }
    assert(lv.take(live.len() as int) =~= lv);
    sort_strings(&out)
}

/// The rows are in ascending order of `fqn`.
pub open spec fn rows_sorted(s: Seq<RowModel>) -> bool {
    forall|i: int, j: int| 0 <= i < j < s.len() ==> !key_less(s[j].fqn, s[i].fqn)
}

proof fn lemma_row_pos_bounds(t: Seq<RowModel>, x: RowModel, j: int)
    requires
        0 <= j <= t.len(),
    ensures
        forall|k: int| j <= k < row_pos(t, x, j) ==> !key_less(x.fqn, t[k].fqn),
        row_pos(t, x, j) < t.len() ==> key_less(x.fqn, t[row_pos(t, x, j)].fqn),
    decreases t.len() - j,
{
    if j < t.len() && !key_less(x.fqn, t[j].fqn) {
        lemma_row_pos_bounds(t, x, j + 1);
    }
}

proof fn lemma_sort_rows(s: Seq<RowModel>)
    ensures
        rows_sorted(sort_rows(s)),
        sort_rows(s).to_multiset() == s.to_multiset(),
    decreases s.len(),
{
    broadcast use vstd::seq_lib::to_multiset_insert, vstd::seq_lib::to_multiset_build;
    if s.len() > 0 {
        let t = sort_rows(s.drop_last());
        let x = s.last();
        lemma_sort_rows(s.drop_last());
        lemma_row_pos(t, x, 0);
        lemma_row_pos_bounds(t, x, 0);
        let p = row_pos(t, x, 0);
        let r = t.insert(p, x);
        assert(rows_sorted(r)) by {
            assert forall|i: int, j: int| 0 <= i < j < r.len() implies !key_less(r[j].fqn, r[i].fqn) by {
                if j < p {
                    assert(r[i] == t[i] && r[j] == t[j]);
                } else if j == p {
                    assert(r[i] == t[i] && r[j] == x);
                } else if i < p {
                    assert(r[i] == t[i] && r[j] == t[j - 1]);
                } else if i == p {
                    assert(r[i] == x && r[j] == t[j - 1]);
                    if key_less(t[j - 1].fqn, x.fqn) {
                        if j - 1 > p {
                            assert(!key_less(t[j - 1].fqn, t[p].fqn));
                        }
                        lemma_key_less_transitive(t[j - 1].fqn, x.fqn, t[p].fqn);
                        lemma_key_less_irreflexive(t[p].fqn);
                    }
                } else {
                    assert(r[i] == t[i - 1] && r[j] == t[j - 1]);
                }
            }
        }
        assert(s == s.drop_last().push(x));
        assert(r.to_multiset() == t.to_multiset().insert(x));
        assert(s.drop_last().push(x).to_multiset() == s.drop_last().to_multiset().insert(x));
    } else {
        assert(s =~= Seq::<RowModel>::empty());
        assert(sort_rows(s) =~= Seq::<RowModel>::empty());
    }
}

proof fn lemma_dedup_rows(s: Seq<RowModel>)
    requires
        rows_sorted(s),
    ensures
        rows_sorted(dedup_rows(s)),
        forall|k: int| 0 <= k < dedup_rows(s).len() ==> s.contains(#[trigger] dedup_rows(s)[k]),
        forall|k: int| 0 <= k && k + 1 < dedup_rows(s).len() ==> dedup_rows(s)[k] != #[trigger] dedup_rows(s)[k + 1],
        s.len() > 0 ==> dedup_rows(s).len() > 0 && dedup_rows(s).last() == s.last(),
    decreases s.len(),
{
    if s.len() > 1 {
        let t = s.drop_last();
        assert(rows_sorted(t));
        lemma_dedup_rows(t);
        let d = dedup_rows(t);
        assert(t.last() == s[s.len() - 2]);
        assert forall|x: RowModel| t.contains(x) implies s.contains(x) by {
            let m = choose|m: int| 0 <= m < t.len() && t[m] == x;
            assert(s[m] == t[m]);
        }
        if s.last() != s[s.len() - 2] {
            let r = d.push(s.last());
            assert(dedup_rows(s) == r);
            assert forall|k: int| 0 <= k < r.len() implies s.contains(#[trigger] r[k]) by {
                if k < d.len() {
                    assert(t.contains(d[k]));
                } else {
                    assert(r[k] == s[s.len() - 1]);
                }
            }
            assert forall|i: int, j: int| 0 <= i < j < r.len() implies !key_less(r[j].fqn, r[i].fqn) by {
                if j >= d.len() {
                    assert(t.contains(d[i]));
                    let m = choose|m: int| 0 <= m < t.len() && t[m] == d[i];
                    assert(s[m] == t[m]);
                    assert(r[j] == s[s.len() - 1]);
                }
            }
            assert forall|k: int| 0 <= k && k + 1 < r.len() implies r[k] != #[trigger] r[k + 1] by {
                if k + 1 == d.len() {
                    assert(r[k] == d.last());
                }
            }
        } else {
            assert(dedup_rows(s) == d);
            assert forall|k: int| 0 <= k < d.len() implies s.contains(#[trigger] d[k]) by {
                assert(t.contains(d[k]));
            }
        }
    } else {
        assert forall|k: int| 0 <= k < dedup_rows(s).len() implies s.contains(#[trigger] dedup_rows(s)[k]) by {
            assert(dedup_rows(s)[k] == s[k]);
        }
    }
}

/// The persistence map is deterministic: its rows come in ascending
/// order of `fqn`, with no row repeated back to back.
pub proof fn law_rows_sorted_without_repeats(d: DomainModel, hs: Seq<Hecksagon>, live: Seq<(Seq<char>, bool)>)
    ensures
        rows_sorted(rows_of(d, hs, live)),
        forall|k: int| 0 <= k && k + 1 < rows_of(d, hs, live).len() ==> rows_of(d, hs, live)[k] != #[trigger] rows_of(d, hs, live)[k + 1],
{
    let all = d.aggregates.map_values(|a: AggregateModel| row_of(a, hs, live));
    lemma_sort_rows(all);
    lemma_dedup_rows(sort_rows(all));
}

/// Every row of the persistence map is the row of one of the domain's
/// aggregates: keyed by its repository key, its adapter and reason
/// resolved from the adapter set of its context.
pub proof fn law_rows_come_from_aggregates(d: DomainModel, hs: Seq<Hecksagon>, live: Seq<(Seq<char>, bool)>)
    ensures
        forall|k: int|
            #![trigger rows_of(d, hs, live)[k]]
            0 <= k < rows_of(d, hs, live).len() ==> exists|i: int|
                0 <= i < d.aggregates.len() && rows_of(d, hs, live)[k] == #[trigger] row_of(
                    d.aggregates[i],
                    hs,
                    live,
                ),
{
    broadcast use vstd::seq_lib::to_multiset_contains;
    let all = d.aggregates.map_values(|a: AggregateModel| row_of(a, hs, live));
    lemma_sort_rows(all);
    lemma_dedup_rows(sort_rows(all));
    assert forall|k: int|
        #![trigger rows_of(d, hs, live)[k]]
        0 <= k < rows_of(d, hs, live).len() implies exists|i: int|
        0 <= i < d.aggregates.len() && rows_of(d, hs, live)[k] == #[trigger] row_of(
            d.aggregates[i],
            hs,
            live,
        ) by {
        let r = rows_of(d, hs, live)[k];
        assert(sort_rows(all).contains(r));
        assert(sort_rows(all).to_multiset().count(r) > 0);
        assert(all.contains(r));
        let i = choose|i: int| 0 <= i < all.len() && all[i] == r;
        assert(all[i] == row_of(d.aggregates[i], hs, live));
    }
}

/// One of the hecksagons named `ctx` declares the persistence adapter `x`.
pub open spec fn declares(hs: Seq<Hecksagon>, ctx: Seq<char>, x: Seq<char>) -> bool {
    exists|j: int|
        0 <= j < hs.len() && (#[trigger] hs[j]).name@ == ctx && hs[j].persistence is Some
            && hs[j].persistence->0@ == x
}

proof fn lemma_adapters_of_contains(hs: Seq<Hecksagon>, ctx: Seq<char>, x: Seq<char>)
    ensures
        adapters_of(hs, ctx).contains(x) <==> declares(hs, ctx, x),
    decreases hs.len(),
{
    if hs.len() > 0 {
        let t = hs.drop_last();
        let h = hs.last();
        lemma_adapters_of_contains(t, ctx, x);
        let at = adapters_of(t, ctx);
        let tail: Seq<Seq<char>> = match h.persistence {
            Some(p) => if h.name@ == ctx { seq![p@] } else { Seq::empty() },
            None => Seq::empty(),
        };
        assert(adapters_of(hs, ctx) == at + tail);
        if adapters_of(hs, ctx).contains(x) {
            let m = choose|m: int| 0 <= m < (at + tail).len() && (at + tail)[m] == x;
            if m < at.len() {
                assert(at[m] == x);
                assert(at.contains(x));
                let j = choose|j: int|
                    0 <= j < t.len() && (#[trigger] t[j]).name@ == ctx && t[j].persistence is Some
                        && t[j].persistence->0@ == x;
                assert(hs[j] == t[j]);
            } else {
                assert(hs[hs.len() - 1] == h);
            }
        }
        if declares(hs, ctx, x) {
            let j = choose|j: int|
                0 <= j < hs.len() && (#[trigger] hs[j]).name@ == ctx && hs[j].persistence is Some
                    && hs[j].persistence->0@ == x;
            if j < t.len() {
                assert(t[j] == hs[j]);
                assert(at.contains(x));
                let m = choose|m: int| 0 <= m < at.len() && at[m] == x;
                assert((at + tail)[m] == x);
            } else {
                assert(tail == seq![x]);
                assert((at + tail)[at.len() as int] == x);
            }
        }
    }
}

proof fn lemma_dedup_adjacent(s: Seq<Seq<char>>)
    ensures
        forall|x: Seq<char>| dedup_adjacent(s).contains(x) <==> s.contains(x),
        crate::text::strs_sorted(s) ==> crate::text::strs_sorted(dedup_adjacent(s)),
        forall|k: int|
            0 <= k && k + 1 < dedup_adjacent(s).len() ==> dedup_adjacent(s)[k] != #[trigger] dedup_adjacent(s)[k + 1],
        s.len() > 0 ==> dedup_adjacent(s).len() > 0 && dedup_adjacent(s).last() == s.last(),
    decreases s.len(),
{
    if s.len() > 1 {
        let t = s.drop_last();
        lemma_dedup_adjacent(t);
        let d = dedup_adjacent(t);
        assert(t.last() == s[s.len() - 2]);
        assert forall|x: Seq<char>| s.contains(x) <==> (t.contains(x) || x == s.last()) by {
            if s.contains(x) {
                let m = choose|m: int| 0 <= m < s.len() && s[m] == x;
                if m < t.len() {
                    assert(t[m] == x);
                }
            }
            if t.contains(x) {
                let m = choose|m: int| 0 <= m < t.len() && t[m] == x;
                assert(s[m] == t[m]);
            }
            if x == s.last() {
                assert(s[s.len() - 1] == x);
            }
        }
        if crate::text::strs_sorted(s) {
            assert(crate::text::strs_sorted(t));
        }
        if s.last() != s[s.len() - 2] {
            let r = d.push(s.last());
            assert(dedup_adjacent(s) == r);
            assert forall|x: Seq<char>| r.contains(x) <==> (d.contains(x) || x == s.last()) by {
                if r.contains(x) {
                    let m = choose|m: int| 0 <= m < r.len() && r[m] == x;
                    if m < d.len() {
                        assert(d[m] == x);
                    }
                }
                if d.contains(x) {
                    let m = choose|m: int| 0 <= m < d.len() && d[m] == x;
                    assert(r[m] == d[m]);
                }
                if x == s.last() {
                    assert(r[r.len() - 1] == x);
                }
            }
            if crate::text::strs_sorted(s) {
                assert forall|i: int, j: int| 0 <= i < j < r.len() implies !key_less(r[j], r[i]) by {
                    if j >= d.len() {
                        assert(d.contains(d[i]));
                        assert(t.contains(d[i]));
                        let m = choose|m: int| 0 <= m < t.len() && t[m] == d[i];
                        assert(s[m] == t[m]);
                        assert(r[j] == s[s.len() - 1]);
                    } else {
                        assert(r[i] == d[i] && r[j] == d[j]);
                    }
                }
            }
            assert forall|k: int| 0 <= k && k + 1 < r.len() implies r[k] != #[trigger] r[k + 1] by {
                if k + 1 == d.len() {
                    assert(r[k] == d.last());
                } else {
                    assert(r[k] == d[k] && r[k + 1] == d[k + 1]);
                }
            }
        } else {
            assert(dedup_adjacent(s) == d);
            assert(t.contains(s.last())) by {
                assert(t[t.len() - 1] == s.last());
            }
        }
    }
}

proof fn lemma_strictly_sorted(s: Seq<Seq<char>>)
    requires
        crate::text::strs_sorted(s),
        forall|k: int| 0 <= k && k + 1 < s.len() ==> s[k] != #[trigger] s[k + 1],
    ensures
        s.no_duplicates(),
{
    assert forall|i: int, j: int| 0 <= i < s.len() && 0 <= j < s.len() && i != j implies s[i]
        != s[j] by {
        let a = if i < j { i } else { j };
        let b = if i < j { j } else { i };
        if s[a] == s[b] {
            assert(s[a] != s[a + 1]);
            assert(!key_less(s[a + 1], s[a]));
            if a + 1 < b {
                assert(!key_less(s[b], s[a + 1]));
            }
            crate::text::lemma_key_less_total(s[a], s[a + 1]);
        }
    }
}

/// The adapter set of a context is exactly the adapters its hecksagons
/// declare, each once; so a row is unwired when none declares one,
/// declared when one adapter is, and in conflict when several are.
pub proof fn law_adapter_set_is_declared(hs: Seq<Hecksagon>, ctx: Seq<char>)
    ensures
        adapter_set(hs, ctx).no_duplicates(),
        forall|x: Seq<char>| adapter_set(hs, ctx).contains(x) <==> declares(hs, ctx, x),
{
    broadcast use vstd::seq_lib::to_multiset_contains;
    let a = adapters_of(hs, ctx);
    crate::text::law_sort_strs(a);
    lemma_dedup_adjacent(sort_strs(a));
    lemma_strictly_sorted(dedup_adjacent(sort_strs(a)));
    assert forall|x: Seq<char>| adapter_set(hs, ctx).contains(x) <==> declares(hs, ctx, x) by {
        lemma_adapters_of_contains(hs, ctx, x);
        assert(sort_strs(a).contains(x) <==> sort_strs(a).to_multiset().count(x) > 0);
        assert(a.contains(x) <==> a.to_multiset().count(x) > 0);
    }
}

/// The orphan stores come sorted, each one that is no aggregate's store
/// listed as often as it was found.
pub proof fn law_orphans_sorted(d: DomainModel, live: Seq<(Seq<char>, bool)>)
    ensures
        crate::text::strs_sorted(sort_strs(orphans_in(d, live))),
        sort_strs(orphans_in(d, live)).to_multiset() == orphans_in(d, live).to_multiset(),
{
    crate::text::law_sort_strs(orphans_in(d, live));
}

} // verus!

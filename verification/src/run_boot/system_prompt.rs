//! The system prompt: section bodies ordered by their numeric `order`,
//! joined, and their `{{key}}` placeholders filled from the being's
//! variables.

use vstd::prelude::*;
use crate::ir::{Fixture, FixtureModel, group_views, seq_view};
use crate::text::{append, chars_of, concat, eq, eq_str, find_char, find_char_exec, find_seq, find_str, i64_value, parse_i64, parses_i64, slice, string_of, tail, trim, trim_exec};

verus! {

broadcast use group_views;

/// The text of the first entry named `key`.
pub open spec fn lookup(entries: Seq<(Seq<char>, Seq<char>)>, key: Seq<char>) -> Option<Seq<char>>
    decreases entries.len(),
{
    if entries.len() == 0 {
        None
    } else if entries[0].0 == key {
        Some(entries[0].1)
    } else {
        lookup(entries.drop_first(), key)
    }
}

/// No key is named twice.
pub open spec fn distinct_keys(entries: Seq<(Seq<char>, Seq<char>)>) -> bool {
    forall|i: int, j: int| 0 <= i < j < entries.len() ==> entries[i].0 != entries[j].0
}

/// Template variables: a map from placeholder names to their text.
pub struct Vars {
    entries: Vec<(String, String)>,
}

impl View for Vars {
    type V = Seq<(Seq<char>, Seq<char>)>;

    closed spec fn view(&self) -> Seq<(Seq<char>, Seq<char>)> {
        seq_view(self.entries@)
    }
}

proof fn lemma_lookup_index(entries: Seq<(Seq<char>, Seq<char>)>, key: Seq<char>, k: int)
    requires
        distinct_keys(entries),
        0 <= k < entries.len(),
        entries[k].0 == key,
    ensures
        lookup(entries, key) == Some(entries[k].1),
    decreases entries.len(),
{
    if k > 0 {
        assert(distinct_keys(entries.drop_first()));
        lemma_lookup_index(entries.drop_first(), key, k - 1);
    }
}

proof fn lemma_lookup_absent(entries: Seq<(Seq<char>, Seq<char>)>, key: Seq<char>)
    requires
        forall|i: int| 0 <= i < entries.len() ==> entries[i].0 != key,
    ensures
        lookup(entries, key) is None,
    decreases entries.len(),
{
    if entries.len() > 0 {
        lemma_lookup_absent(entries.drop_first(), key);
    }
}

proof fn lemma_update_lookup(before: Seq<(Seq<char>, Seq<char>)>, i: int, key: Seq<char>, val: Seq<char>)
    requires
        distinct_keys(before),
        0 <= i < before.len(),
        before[i].0 == key,
    ensures
        distinct_keys(before.update(i, (key, val))),
        lookup(before.update(i, (key, val)), key) == Some(val),
        forall|q: Seq<char>| q != key ==> lookup(before.update(i, (key, val)), q) == lookup(before, q),
{
    let after = before.update(i, (key, val));
    assert(distinct_keys(after)) by {
        assert forall|a: int, b: int| 0 <= a < b < after.len() implies after[a].0 != after[b].0 by {
            assert(after[a].0 == before[a].0);
            assert(after[b].0 == before[b].0);
        }
    }
    lemma_lookup_index(after, key, i);
    assert forall|q: Seq<char>| q != key implies lookup(after, q) == lookup(before, q) by {
        if exists|m: int| 0 <= m < before.len() && before[m].0 == q {
            let m = choose|m: int| 0 <= m < before.len() && before[m].0 == q;
            assert(m != i);
            assert(after[m] == before[m]);
            lemma_lookup_index(before, q, m);
            lemma_lookup_index(after, q, m);
        } else {
            assert forall|m: int| 0 <= m < after.len() implies after[m].0 != q by {
                if m != i {
                    assert(after[m] == before[m]);
                }
            }
            lemma_lookup_absent(before, q);
            lemma_lookup_absent(after, q);
        }
    }
}

proof fn lemma_push_lookup(before: Seq<(Seq<char>, Seq<char>)>, key: Seq<char>, val: Seq<char>)
    requires
        distinct_keys(before),
        forall|m: int| 0 <= m < before.len() ==> before[m].0 != key,
    ensures
        distinct_keys(before.push((key, val))),
        lookup(before.push((key, val)), key) == Some(val),
        forall|q: Seq<char>| q != key ==> lookup(before.push((key, val)), q) == lookup(before, q),
{
    let after = before.push((key, val));
    assert(distinct_keys(after)) by {
        assert forall|a: int, b: int| 0 <= a < b < after.len() implies after[a].0 != after[b].0 by {
            assert(after[a].0 == before[a].0);
            if b < before.len() {
                assert(after[b].0 == before[b].0);
            }
        }
    }
    lemma_lookup_index(after, key, before.len() as int);
    assert forall|q: Seq<char>| q != key implies lookup(after, q) == lookup(before, q) by {
        if exists|m: int| 0 <= m < before.len() && before[m].0 == q {
            let m = choose|m: int| 0 <= m < before.len() && before[m].0 == q;
            assert(after[m] == before[m]);
            lemma_lookup_index(before, q, m);
            lemma_lookup_index(after, q, m);
        } else {
            assert forall|m: int| 0 <= m < after.len() implies after[m].0 != q by {
                if m < before.len() {
                    assert(after[m] == before[m]);
                }
            }
            lemma_lookup_absent(before, q);
            lemma_lookup_absent(after, q);
        }
    }
}

impl Vars {
    /// The variables are well formed: each name once.
    pub closed spec fn wf(&self) -> bool {
        distinct_keys(self@)
    }

    /// The text of a variable, if it is set.
    pub closed spec fn value(&self, key: Seq<char>) -> Option<Seq<char>> {
        lookup(self@, key)
    }

    /// No variables.
    pub fn new() -> (v: Vars)
        ensures
            v.wf(),
            forall|k: Seq<char>| v.value(k) is None,
    {
        Vars { entries: Vec::new() }
    }

    /// Sets `key` to `value`, replacing any earlier value.
    pub fn insert(&mut self, key: &str, value: String)
        requires
            old(self).wf(),
        ensures
            final(self).wf(),
            final(self).value(key@) == Some(value@),
            forall|k: Seq<char>| k != key@ ==> final(self).value(k) == old(self).value(k),
    {
        let k = chars_of(key);
        let ghost ev = seq_view(self.entries@);
        let mut i: usize = 0;
        while i < self.entries.len()
            invariant
                i <= self.entries.len(),
                k@ == key@,
                ev == seq_view(self.entries@),
                ev == seq_view(old(self).entries@),
                distinct_keys(ev),
                forall|m: int| 0 <= m < i ==> ev[m].0 != key@,
            decreases self.entries.len() - i,
        {
            if eq(&chars_of(self.entries[i].0.as_str()), &k) {
                assert(ev[i as int].0 == key@);
                self.entries.set(i, (string_of(&k), value));
                proof {
                    assert(seq_view(self.entries@) =~= ev.update(i as int, (key@, value@)));
                    lemma_update_lookup(ev, i as int, key@, value@);
                }
                return;
            }
            i = i + 1;
        }
        self.entries.push((string_of(&k), value));
        proof {
            assert(seq_view(self.entries@) =~= ev.push((key@, value@)));
            lemma_push_lookup(ev, key@, value@);
        }
    }

    /// The text of `key`, if set.
    pub fn get(&self, key: &str) -> (r: Option<&String>)
        ensures
            match r {
                Some(v) => self.value(key@) == Some(v@),
                None => self.value(key@) is None,
            },
    {
        let k = chars_of(key);
        let ghost ev = seq_view(self.entries@);
        let mut i: usize = 0;
        assert(ev.subrange(0, ev.len() as int) =~= ev);
        while i < self.entries.len()
            invariant
                i <= self.entries.len(),
                k@ == key@,
                ev == seq_view(self.entries@),
                lookup(ev.subrange(i as int, ev.len() as int), key@) == lookup(ev, key@),
            decreases self.entries.len() - i,
        {
            let ghost rest = ev.subrange(i as int, ev.len() as int);
            assert(rest.drop_first() =~= ev.subrange(i + 1, ev.len() as int));
            if eq(&chars_of(self.entries[i].0.as_str()), &k) {
                return Some(&self.entries[i].1);
            }
            i = i + 1;
        }
        None
    }
}

/// `template` from `rest` on: each `{{key}}` whose trimmed name is set
/// becomes its text, an unknown one passes through exactly as written,
/// and an unclosed `{{` ends the scan with the rest kept literally.
pub open spec fn substituted(rest: Seq<char>, vars: Seq<(Seq<char>, Seq<char>)>) -> Seq<char>
    decreases rest.len(),
{
    match find_seq(rest, "{{"@) {
        None => rest,
        Some(open) => if open < 0 || open + 2 > rest.len() {
            rest
        } else {
            let after = rest.subrange(open + 2, rest.len() as int);
            match find_seq(after, "}}"@) {
                None => rest,
                Some(close) => if close < 0 || close + 2 > after.len() {
                    rest
                } else {
                    let key = trim(after.subrange(0, close));
                    rest.subrange(0, open) + match lookup(vars, key) {
                        Some(v) => v,
                        None => rest.subrange(open, open + 2 + close + 2),
                    } + substituted(after.subrange(close + 2, after.len() as int), vars)
                },
            }
        },
    }
}

/// Fills `{{key}}` placeholders from `vars`; unknown placeholders pass
/// through so that review catches them, and a malformed one stops the
/// scan with the rest of the template kept.
pub fn substitute(template: &str, vars: &Vars) -> (r: String)
    ensures
        r@ == substituted(template@, vars@),
{
    proof {
        reveal_strlit("{{");
        reveal_strlit("}}");
    }
    let mut out: Vec<char> = Vec::new();
    let mut rest = chars_of(template);
    assert(out@ + substituted(rest@, vars@) =~= substituted(template@, vars@));
    loop
        invariant
            out@ + substituted(rest@, vars@) == substituted(template@, vars@),
        decreases rest.len(),
    {
        proof {
            reveal_strlit("{{");
            reveal_strlit("}}");
        }
        let open = match find_str(&rest, "{{") {
            Some(o) => o,
            None => {
                append(&mut out, &rest);
                return string_of(&out);
            },
        };
        let after = tail(&rest, open + 2);
        let close = match find_str(&after, "}}") {
            Some(c) => c,
            None => {
                append(&mut out, &rest);
                return string_of(&out);
            },
        };
        let key = trim_exec(&slice(&after, 0, close));
        let ghost o0 = out@;
        append(&mut out, &slice(&rest, 0, open));
        let ks = string_of(&key);
        match vars.get(ks.as_str()) {
            Some(v) => {
                append(&mut out, &chars_of(v.as_str()));
            },
            None => {
                append(&mut out, &slice(&rest, open, open + 2 + close + 2));
            },
        }
        let next = tail(&after, close + 2);
        assert(out@ + substituted(next@, vars@) =~= o0 + substituted(rest@, vars@));
        rest = next;
    }
}

/// The identity variables of a being: its name, birth date, twin and boot
/// script (`(unknown)` and `boot.sh` for a being not known here).
pub open spec fn being_vars(being: Seq<char>) -> (Seq<char>, Seq<char>, Seq<char>) {
    if being == "Miette"@ {
        ("April 9, 2026"@, "Spring"@, "boot_miette.sh"@)
    } else if being == "Spring"@ {
        ("April 11, 2026"@, "Miette"@, "boot_spring.sh"@)
    } else {
        ("(unknown)"@, "(unknown)"@, "boot.sh"@)
    }
}

/// The identity variables of `being`.
pub fn variables_for_being(being: &str) -> (v: Vars)
    ensures
        v.wf(),
        v.value("being"@) == Some(being@),
        v.value("born"@) == Some(being_vars(being@).0),
        v.value("other"@) == Some(being_vars(being@).1),
        v.value("boot_script"@) == Some(being_vars(being@).2),
{
    proof {
        reveal_strlit("being");
        reveal_strlit("born");
        reveal_strlit("other");
        reveal_strlit("boot_script");
        assert("being"@.len() == 5 && "born"@.len() == 4 && "other"@.len() == 5 && "boot_script"@.len() == 11);
        assert("being"@[0] != "other"@[0]);
        assert("being"@ != "born"@ && "being"@ != "other"@ && "being"@ != "boot_script"@);
        assert("born"@ != "other"@ && "born"@ != "boot_script"@ && "other"@ != "boot_script"@);
    }
    let mut v = Vars::new();
    v.insert("being", string_of(&chars_of(being)));
    let b = chars_of(being);
    let (born, other, boot) = if eq_str(&b, "Miette") {
        ("April 9, 2026", "Spring", "boot_miette.sh")
    } else if eq_str(&b, "Spring") {
        ("April 11, 2026", "Miette", "boot_spring.sh")
    } else {
        ("(unknown)", "(unknown)", "boot.sh")
    };
    v.insert("born", string_of(&chars_of(born)));
    v.insert("other", string_of(&chars_of(other)));
    v.insert("boot_script", string_of(&chars_of(boot)));
    v
}

/// The text between the first `marker` and the next `"` after it.
pub open spec fn text_after(src: Seq<char>, marker: Seq<char>) -> Option<Seq<char>> {
    match find_seq(src, marker) {
        Some(i) => if 0 <= i && i + marker.len() <= src.len() {
            let rest = src.subrange(i + marker.len(), src.len() as int);
            match find_char(rest, '"') {
                Some(e) => Some(rest.subrange(0, e)),
                None => None,
            }
        } else {
            None
        },
        None => None,
    }
}

/// The text from the end of the first `marker` up to the next quote;
/// `None` when either is absent.
pub fn quoted_after(src: &str, marker: &str) -> (r: Option<String>)
    ensures
        match r {
            Some(t) => text_after(src@, marker@) == Some(t@),
            None => text_after(src@, marker@) is None,
        },
{
    let s = chars_of(src);
    let start = match find_str(&s, marker) {
        Some(i) => i + chars_of(marker).len(),
        None => return None,
    };
    let rest = tail(&s, start);
    match find_char_exec(&rest, '"') {
        Some(e) => Some(string_of(&slice(&rest, 0, e))),
        None => None,
    }
}

// ---------------------------------------------------------------------
// Sections
// ---------------------------------------------------------------------

/// A section's order: its `order` field parsed as an `i64` after
/// trimming, `i64::MAX` when absent or not a number.
pub open spec fn section_order(attrs: Seq<(Seq<char>, Seq<char>)>) -> int {
    match lookup(attrs, "order"@) {
        Some(v) => if parses_i64(trim(v)) { i64_value(trim(v)) } else { 0x7fff_ffff_ffff_ffffint },
        None => 0x7fff_ffff_ffff_ffffint,
    }
}

/// A section's body: its `markdown` field, empty when absent.
pub open spec fn section_body(attrs: Seq<(Seq<char>, Seq<char>)>) -> Seq<char> {
    match lookup(attrs, "markdown"@) {
        Some(v) => v,
        None => Seq::empty(),
    }
}

/// The `(order, body)` of every `SystemPromptSection` fixture, in order.
pub open spec fn sections_of(fs: Seq<FixtureModel>) -> Seq<(int, Seq<char>)>
    decreases fs.len(),
{
    if fs.len() == 0 {
        Seq::empty()
    } else {
        let f = fs.last();
        sections_of(fs.drop_last()) + if f.aggregate_name == "SystemPromptSection"@ {
            seq![(section_order(f.attributes), section_body(f.attributes))]
        } else {
            Seq::empty()
        }
    }
}

/// Where a stable insertion places `x`: after every entry whose order is
/// not greater.
pub open spec fn order_pos(s: Seq<(int, Seq<char>)>, x: (int, Seq<char>), j: int) -> int
    decreases s.len() - j,
{
    if j < 0 || j >= s.len() {
        s.len() as int
    } else if x.0 < s[j].0 {
        j
    } else {
        order_pos(s, x, j + 1)
    }
}

pub proof fn lemma_order_pos(s: Seq<(int, Seq<char>)>, x: (int, Seq<char>), j: int)
    requires
        0 <= j <= s.len(),
    ensures
        j <= order_pos(s, x, j) <= s.len(),
    decreases s.len() - j,
{
    if j < s.len() && !(x.0 < s[j].0) {
        lemma_order_pos(s, x, j + 1);
    }
}

/// The stable sort by order.
pub open spec fn by_order(s: Seq<(int, Seq<char>)>) -> Seq<(int, Seq<char>)>
    decreases s.len(),
{
    if s.len() == 0 {
        Seq::empty()
    } else {
        let t = by_order(s.drop_last());
        t.insert(order_pos(t, s.last(), 0), s.last())
    }
}

/// The sections are in non-decreasing order.
pub open spec fn orders_sorted(s: Seq<(int, Seq<char>)>) -> bool {
    forall|i: int, j: int| 0 <= i < j < s.len() ==> s[i].0 <= s[j].0
}

proof fn lemma_order_pos_bounds(t: Seq<(int, Seq<char>)>, x: (int, Seq<char>), j: int)
    requires
        0 <= j <= t.len(),
    ensures
        forall|k: int| j <= k < order_pos(t, x, j) ==> t[k].0 <= x.0,
        order_pos(t, x, j) < t.len() ==> x.0 < t[order_pos(t, x, j)].0,
    decreases t.len() - j,
{
    if j < t.len() && !(x.0 < t[j].0) {
        lemma_order_pos_bounds(t, x, j + 1);
    }
}

/// Sections are assembled in numeric order of their `order` (not the
/// lexical order that would put 10 before 2), every section kept.
pub proof fn law_sections_in_numeric_order(s: Seq<(int, Seq<char>)>)
    ensures
        orders_sorted(by_order(s)),
        by_order(s).to_multiset() == s.to_multiset(),
    decreases s.len(),
{
    broadcast use vstd::seq_lib::to_multiset_insert, vstd::seq_lib::to_multiset_build;
    if s.len() > 0 {
        let t = by_order(s.drop_last());
        let x = s.last();
        law_sections_in_numeric_order(s.drop_last());
        lemma_order_pos(t, x, 0);
        lemma_order_pos_bounds(t, x, 0);
        let p = order_pos(t, x, 0);
        let r = t.insert(p, x);
        assert(orders_sorted(r)) by {
            assert forall|i: int, j: int| 0 <= i < j < r.len() implies r[i].0 <= r[j].0 by {
                if j < p {
                    assert(r[i] == t[i] && r[j] == t[j]);
                } else if j == p {
                    assert(r[i] == t[i] && r[j] == x);
                } else if i < p {
                    assert(r[i] == t[i] && r[j] == t[j - 1]);
                } else if i == p {
                    assert(r[i] == x && r[j] == t[j - 1]);
                    if j - 1 > p {
                        assert(t[p].0 <= t[j - 1].0);
                    }
                } else {
                    assert(r[i] == t[i - 1] && r[j] == t[j - 1]);
                }
            }
        }
        assert(s == s.drop_last().push(x));
        assert(r.to_multiset() == t.to_multiset().insert(x));
        assert(s.drop_last().push(x).to_multiset() == s.drop_last().to_multiset().insert(x));
    } else {
        assert(s =~= Seq::<(int, Seq<char>)>::empty());
        assert(by_order(s) =~= Seq::<(int, Seq<char>)>::empty());
    }
}

pub proof fn lemma_by_order_len(s: Seq<(int, Seq<char>)>)
    ensures
        by_order(s).len() == s.len(),
    decreases s.len(),
{
    if s.len() > 0 {
        lemma_by_order_len(s.drop_last());
        lemma_order_pos(by_order(s.drop_last()), s.last(), 0);
    }
}

/// Texts joined with newlines.
pub open spec fn joined_bodies(s: Seq<(int, Seq<char>)>) -> Seq<char>
    decreases s.len(),
{
    if s.len() == 0 {
        Seq::empty()
    } else if s.len() == 1 {
        s[0].1
    } else {
        joined_bodies(s.drop_last()) + "\n"@ + s.last().1
    }
}

pub fn lookup_exec(attrs: &Vec<(String, String)>, key: &str) -> (r: Option<Vec<char>>)
    ensures
        match r {
            Some(v) => lookup(seq_view(attrs@), key@) == Some(v@),
            None => lookup(seq_view(attrs@), key@) is None,
        },
{
    let k = chars_of(key);
    let ghost ev = seq_view(attrs@);
    let mut i: usize = 0;
    assert(ev.subrange(0, ev.len() as int) =~= ev);
    while i < attrs.len()
        invariant
            i <= attrs.len(),
            k@ == key@,
            ev == seq_view(attrs@),
            lookup(ev.subrange(i as int, ev.len() as int), key@) == lookup(ev, key@),
        decreases attrs.len() - i,
    {
        let ghost rest = ev.subrange(i as int, ev.len() as int);
        assert(rest.drop_first() =~= ev.subrange(i + 1, ev.len() as int));
        if eq(&chars_of(attrs[i].0.as_str()), &k) {
            return Some(chars_of(attrs[i].1.as_str()));
        }
        i = i + 1;
    }
    None
}

/// The system prompt body from the content fixtures: every
/// `SystemPromptSection` row's `markdown`, ordered numerically by `order`
/// (rows without a numeric order last, ties in file order), joined with
/// newlines.
pub fn assemble_fixtures(fixtures: &Vec<Fixture>) -> (r: String)
    ensures
        r@ == joined_bodies(by_order(sections_of(seq_view(fixtures@)))),
{
    proof {
        reveal_strlit("order");
        reveal_strlit("markdown");
    }
    let ghost fv = seq_view(fixtures@);
    let mut sorted: Vec<(i64, Vec<char>)> = Vec::new();
    let mut i: usize = 0;
    assert(fv.take(0) =~= Seq::<FixtureModel>::empty());
    while i < fixtures.len()
        invariant
            i <= fixtures.len(),
            fv == seq_view(fixtures@),
            sorted@.map_values(|p: (i64, Vec<char>)| (p.0 as int, p.1@)) == by_order(sections_of(fv.take(i as int))),
        decreases fixtures.len() - i,
    {
        let f = &fixtures[i];
        assert(fv.take(i + 1).drop_last() =~= fv.take(i as int));
        assert(fv.take(i + 1).last() == f@);
        if eq_str(&chars_of(f.aggregate_name.as_str()), "SystemPromptSection") {
            let order: i64 = match lookup_exec(&f.attributes, "order") {
                Some(v) => match parse_i64(&trim_exec(&v)) {
                    Some(n) => n,
                    None => i64::MAX,
                },
                None => i64::MAX,
            };
            let body = match lookup_exec(&f.attributes, "markdown") {
                Some(v) => v,
                None => Vec::new(),
            };
            let ghost x = (order as int, body@);
            let ghost prev = sections_of(fv.take(i as int));
            assert(sections_of(fv.take(i + 1)) == prev.push(x)) by {
                assert(prev + seq![x] =~= prev.push(x));
            }
            assert(prev.push(x).drop_last() =~= prev);
            let ghost sv = sorted@.map_values(|p: (i64, Vec<char>)| (p.0 as int, p.1@));
            proof { lemma_order_pos(sv, x, 0); }
            let mut j: usize = 0;
            while j < sorted.len() && !(order < sorted[j].0)
                invariant
                    j <= sorted.len(),
                    sv == sorted@.map_values(|p: (i64, Vec<char>)| (p.0 as int, p.1@)),
                    x == (order as int, body@),
                    order_pos(sv, x, j as int) == order_pos(sv, x, 0),
                decreases sorted.len() - j,
            {
                j = j + 1;
            }
            sorted.insert(j, (order, body));
            assert(sorted@.map_values(|p: (i64, Vec<char>)| (p.0 as int, p.1@)) =~= sv.insert(j as int, x));
        } else {
            let ghost prev = sections_of(fv.take(i as int));
            assert(sections_of(fv.take(i + 1)) =~= prev);
        }
        i = i + 1;
    }
    assert(fv.take(fv.len() as int) =~= fv);
    let ghost sv = sorted@.map_values(|p: (i64, Vec<char>)| (p.0 as int, p.1@));
    let mut out: Vec<char> = Vec::new();
    let mut k: usize = 0;
    while k < sorted.len()
        invariant
            k <= sorted.len(),
            sv == sorted@.map_values(|p: (i64, Vec<char>)| (p.0 as int, p.1@)),
            out@ == joined_bodies(sv.take(k as int)),
        decreases sorted.len() - k,
    {
        assert(sv.take(k + 1).drop_last() =~= sv.take(k as int));
        assert(sv.take(k + 1).last() == (sorted@[k as int].0 as int, sorted@[k as int].1@));
        if k == 0 {
            assert(sv.take(1).len() == 1);
            out = sorted[0].1.clone();
        } else {
            out = concat(&concat(&out, &chars_of("\n")), &sorted[k].1);
        }
        k = k + 1;
    }
    assert(sv.take(sv.len() as int) =~= sv);
    string_of(&out)
}

/// A template without placeholders is returned as it is, whatever the
/// variables.
pub proof fn law_plain_template_unchanged(template: Seq<char>, vars: Seq<(Seq<char>, Seq<char>)>)
    requires
        find_seq(template, "{{"@) is None,
    ensures
        substituted(template, vars) == template,
{
}

/// With no variables every placeholder is unknown, and the template comes
/// back exactly as written.
pub proof fn law_unknown_placeholders_pass_through(template: Seq<char>)
    ensures
        substituted(template, Seq::empty()) == template,
    decreases template.len(),
{
    match find_seq(template, "{{"@) {
        None => {},
        Some(open) => {
            if 0 <= open && open + 2 <= template.len() {
                let after = template.subrange(open + 2, template.len() as int);
                match find_seq(after, "}}"@) {
                    None => {},
                    Some(close) => {
                        if 0 <= close && close + 2 <= after.len() {
                            let next = after.subrange(close + 2, after.len() as int);
                            law_unknown_placeholders_pass_through(next);
                            assert(next =~= template.subrange(open + 2 + close + 2, template.len() as int));
                            assert(template.subrange(0, open) + template.subrange(open, open + 2 + close + 2)
                                + next =~= template);
                        }
                    },
                }
            }
        },
    }
}

} // verus!

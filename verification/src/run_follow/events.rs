//! The JSONL event stream of `follow`: each line one JSON object, kept or
//! dropped by the options, and rendered terse, as pretty JSON, or as
//! human-readable indented text.

use vstd::prelude::*;
use crate::run_follow::palette::{Colour, code, colour_code, kind_colour};
use crate::run_serve::fqn_parts;
use crate::text::{chars_of, concat, contains_char, contains_char_exec, contains_seq, contains_str, eq, eq_str, dec_str, replace_all, replace_exec, split_char, split_char_exec, string_of, strings_view, trim, trim_exec, u64_chars, views, key_less, key_less_exec, tail, lemma_key_less_transitive, lemma_key_less_total};
use crate::parser::{source_lines, source_lines_exec};

verus! {

#[verifier::external_type_specification]
#[verifier::external_body]
pub struct ExJsonValue(serde_json::Value);

/// A JSON value as the watcher reads it. An object keeps its entries in
/// their map order; a number keeps its printed form and, when it is a
/// non-negative integer, its `u64` value.
pub enum Json {
    Null,
    Bool(bool),
    Number(String, Option<u64>),
    Str(String),
    Array(Vec<Json>),
    Object(Vec<(String, Json)>),
}

/// How deeply arrays and objects nest in a value.
pub open spec fn json_depth(v: Json) -> nat
    decreases v,
{
    match v {
        Json::Array(items) => 1 + items_depth(items@),
        Json::Object(entries) => 1 + entries_depth(entries@),
        _ => 0,
    }
}

pub open spec fn items_depth(items: Seq<Json>) -> nat
    decreases items,
{
    if items.len() == 0 {
        0
    } else {
        let d = json_depth(items[0]);
        let r = items_depth(items.drop_first());
        if d > r { d } else { r }
    }
}

pub open spec fn entries_depth(entries: Seq<(String, Json)>) -> nat
    decreases entries,
{
    if entries.len() == 0 {
        0
    } else {
        let d = json_depth(entries[0].1);
        let r = entries_depth(entries.drop_first());
        if d > r { d } else { r }
    }
}

/// A JSON value as contracts speak of it: strings as characters.
pub enum JsonView {
    Null,
    Bool(bool),
    Number(Seq<char>, Option<u64>),
    Str(Seq<char>),
    Array(Seq<JsonView>),
    Object(Seq<(Seq<char>, JsonView)>),
}

pub open spec fn json_view(v: Json) -> JsonView
    decreases v,
{
    match v {
        Json::Null => JsonView::Null,
        Json::Bool(b) => JsonView::Bool(b),
        Json::Number(t, n) => JsonView::Number(t@, n),
        Json::Str(s) => JsonView::Str(s@),
        Json::Array(items) => JsonView::Array(items_view(items@)),
        Json::Object(entries) => JsonView::Object(entries_view(entries@)),
    }
}

pub open spec fn items_view(items: Seq<Json>) -> Seq<JsonView>
    decreases items,
{
    if items.len() == 0 {
        Seq::empty()
    } else {
        seq![json_view(items[0])] + items_view(items.drop_first())
    }
}

pub open spec fn entries_view(entries: Seq<(String, Json)>) -> Seq<(Seq<char>, JsonView)>
    decreases entries,
{
    if entries.len() == 0 {
        Seq::empty()
    } else {
        seq![(entries[0].0@, json_view(entries[0].1))] + entries_view(entries.drop_first())
    }
}

pub proof fn lemma_items_view(items: Seq<Json>)
    ensures
        items_view(items).len() == items.len(),
        forall|i: int| 0 <= i < items.len() ==> #[trigger] items_view(items)[i] == json_view(items[i]),
    decreases items.len(),
{
    if items.len() > 0 {
        lemma_items_view(items.drop_first());
        assert forall|i: int| 0 <= i < items.len() implies #[trigger] items_view(items)[i] == json_view(
            items[i],
        ) by {
            if i > 0 {
                assert(items.drop_first()[i - 1] == items[i]);
            }
        }
    }
}

pub proof fn lemma_entries_view(entries: Seq<(String, Json)>)
    ensures
        entries_view(entries).len() == entries.len(),
        forall|i: int|
            0 <= i < entries.len() ==> #[trigger] entries_view(entries)[i] == (
                entries[i].0@,
                json_view(entries[i].1),
            ),
    decreases entries.len(),
{
    if entries.len() > 0 {
        lemma_entries_view(entries.drop_first());
        assert forall|i: int| 0 <= i < entries.len() implies #[trigger] entries_view(entries)[i] == (
            entries[i].0@,
            json_view(entries[i].1),
        ) by {
            if i > 0 {
                assert(entries.drop_first()[i - 1] == entries[i]);
            }
        }
    }
}

/// The view of a list of values is the values' views, in order.
pub proof fn lemma_items_view_push(items: Seq<Json>, x: Json)
    ensures
        items_view(items.push(x)) == items_view(items).push(json_view(x)),
{
    lemma_items_view(items);
    lemma_items_view(items.push(x));
    assert(items_view(items.push(x)) =~= items_view(items).push(json_view(x)));
}

/// `serde_json::Map::insert` on entries kept in key order: the value of an
/// existing key is replaced in place; a new key goes before the first
/// greater one.
pub open spec fn obj_insert(e: Seq<(Seq<char>, JsonView)>, k: Seq<char>, v: JsonView) -> Seq<
    (Seq<char>, JsonView),
>
    decreases e.len(),
{
    if e.len() == 0 {
        seq![(k, v)]
    } else if e[0].0 == k {
        seq![(k, v)] + e.drop_first()
    } else if key_less(k, e[0].0) {
        seq![(k, v)] + e
    } else {
        seq![e[0]] + obj_insert(e.drop_first(), k, v)
    }
}

/// The entries' keys strictly increase.
pub open spec fn keys_sorted(e: Seq<(Seq<char>, JsonView)>) -> bool {
    forall|i: int, j: int| 0 <= i < j < e.len() ==> key_less(#[trigger] e[i].0, #[trigger] e[j].0)
}

/// The value of the first entry with key `q`.
pub open spec fn lookup(e: Seq<(Seq<char>, JsonView)>, q: Seq<char>) -> Option<JsonView>
    decreases e.len(),
{
    if e.len() == 0 {
        None
    } else if e[0].0 == q {
        Some(e[0].1)
    } else {
        lookup(e.drop_first(), q)
    }
}

/// Inserting into entries kept in key order keeps them in key order, makes
/// the key give the new value, and leaves every other key as it was: a
/// map's insert.
pub proof fn law_obj_insert(e: Seq<(Seq<char>, JsonView)>, k: Seq<char>, v: JsonView)
    requires
        keys_sorted(e),
    ensures
        keys_sorted(obj_insert(e, k, v)),
        forall|q: Seq<char>|
            #[trigger] lookup(obj_insert(e, k, v), q) == if q == k {
                Some(v)
            } else {
                lookup(e, q)
            },
        forall|i: int|
            0 <= i < obj_insert(e, k, v).len() ==> #[trigger] obj_insert(e, k, v)[i].0 == k || exists|
                j: int,
            | 0 <= j < e.len() && e[j].0 == obj_insert(e, k, v)[i].0,
    decreases e.len(),
{
    let r = obj_insert(e, k, v);
    if e.len() == 0 {
        assert(r.drop_first() =~= Seq::<(Seq<char>, JsonView)>::empty());
        assert(r[0] == (k, v));
        assert forall|q: Seq<char>| #[trigger] lookup(r, q) == if q == k { Some(v) } else { lookup(e, q) } by {
            assert(lookup(r.drop_first(), q) is None);
        }
    } else {
        let rest = e.drop_first();
        assert(keys_sorted(rest)) by {
            assert forall|i: int, j: int| 0 <= i < j < rest.len() implies key_less(#[trigger] rest[i].0, #[trigger] rest[j].0) by {
                assert(rest[i] == e[i + 1] && rest[j] == e[j + 1]);
            }
        }
        if e[0].0 == k {
            assert(r.drop_first() =~= rest);
            assert(keys_sorted(r)) by {
                assert forall|i: int, j: int| 0 <= i < j < r.len() implies key_less(#[trigger] r[i].0, #[trigger] r[j].0) by {
                    assert(r[j] == e[j]);
                    if i > 0 {
                        assert(r[i] == e[i]);
                    }
                }
            }
            assert forall|q: Seq<char>| #[trigger] lookup(r, q) == if q == k { Some(v) } else { lookup(e, q) } by {}
            assert forall|i: int| 0 <= i < r.len() implies #[trigger] r[i].0 == k || exists|j: int| 0 <= j < e.len() && e[j].0 == r[i].0 by {
                if i > 0 {
                    assert(r[i] == e[i]);
                }
            }
        } else if key_less(k, e[0].0) {
            assert(r.drop_first() =~= e);
            assert(keys_sorted(r)) by {
                assert forall|i: int, j: int| 0 <= i < j < r.len() implies key_less(#[trigger] r[i].0, #[trigger] r[j].0) by {
                    assert(r[j] == e[j - 1]);
                    if i == 0 {
                        if j > 1 {
                            assert(key_less(e[0].0, e[j - 1].0));
                            lemma_key_less_transitive(k, e[0].0, e[j - 1].0);
                        }
                    } else {
                        assert(r[i] == e[i - 1]);
                    }
                }
            }
            assert forall|q: Seq<char>| #[trigger] lookup(r, q) == if q == k { Some(v) } else { lookup(e, q) } by {}
            assert forall|i: int| 0 <= i < r.len() implies #[trigger] r[i].0 == k || exists|j: int| 0 <= j < e.len() && e[j].0 == r[i].0 by {
                if i > 0 {
                    assert(r[i] == e[i - 1]);
                }
            }
        } else {
            let ins = obj_insert(rest, k, v);
            law_obj_insert(rest, k, v);
            assert(r.drop_first() =~= ins);
            lemma_key_less_total(k, e[0].0);
            assert(key_less(e[0].0, k));
            assert forall|i: int| 0 <= i < ins.len() implies key_less(e[0].0, #[trigger] ins[i].0) by {
                if ins[i].0 != k {
                    let j = choose|j: int| 0 <= j < rest.len() && rest[j].0 == ins[i].0;
                    assert(rest[j] == e[j + 1]);
                }
            }
            assert(keys_sorted(r)) by {
                assert forall|i: int, j: int| 0 <= i < j < r.len() implies key_less(#[trigger] r[i].0, #[trigger] r[j].0) by {
                    assert(r[j] == ins[j - 1]);
                    if i > 0 {
                        assert(r[i] == ins[i - 1]);
                    }
                }
            }
            assert forall|q: Seq<char>| #[trigger] lookup(r, q) == if q == k { Some(v) } else { lookup(e, q) } by {
                assert(lookup(ins, q) == if q == k { Some(v) } else { lookup(rest, q) });
            }
            assert forall|i: int| 0 <= i < r.len() implies #[trigger] r[i].0 == k || exists|j: int| 0 <= j < e.len() && e[j].0 == r[i].0 by {
                if i > 0 {
                    assert(r[i] == ins[i - 1]);
                    if ins[i - 1].0 != k {
                        let j = choose|j: int| 0 <= j < rest.len() && rest[j].0 == ins[i - 1].0;
                        assert(rest[j] == e[j + 1]);
                    }
                }
            }
        }
    }
}

/// Inserts `(k, v)` into entries kept in key order, as `obj_insert` says.
pub fn obj_insert_exec(e: &mut Vec<(String, Json)>, k: String, v: Json)
    ensures
        entries_view(final(e)@) == obj_insert(entries_view(old(e)@), k@, json_view(v)),
{
    let ghost ev = entries_view(old(e)@);
    let ghost jv = json_view(v);
    proof {
        lemma_entries_view(old(e)@);
        assert(ev.skip(0) =~= ev);
        assert(ev.take(0) + obj_insert(ev.skip(0), k@, jv) =~= obj_insert(ev, k@, jv));
    }
    let kc = chars_of(k.as_str());
    let mut i: usize = 0;
    while i < e.len()
        invariant
            i <= e.len(),
            e@ == old(e)@,
            ev == entries_view(old(e)@),
            jv == json_view(v),
            kc@ == k@,
            ev.len() == e@.len(),
            forall|m: int| 0 <= m < e@.len() ==> #[trigger] ev[m] == (e@[m].0@, json_view(e@[m].1)),
            ev.take(i as int) + obj_insert(ev.skip(i as int), k@, jv) == obj_insert(ev, k@, jv),
        decreases e.len() - i,
    {
        let ec = chars_of(e[i].0.as_str());
        let ghost rest = ev.skip(i as int);
        assert(rest[0] == ev[i as int]);
        assert(rest.drop_first() =~= ev.skip(i + 1));
        if eq(&ec, &kc) {
            let ghost before = e@;
            e.set(i, (k, v));
            proof {
                lemma_entries_view(e@);
                assert(entries_view(e@) =~= ev.take(i as int) + obj_insert(rest, kc@, jv));
            }
            return;
        }
        if key_less_exec(&kc, &ec) {
            e.insert(i, (k, v));
            proof {
                lemma_entries_view(e@);
                assert(entries_view(e@) =~= ev.take(i as int) + obj_insert(rest, kc@, jv));
            }
            return;
        }
        assert(ev.take(i + 1) =~= ev.take(i as int).push(ev[i as int]));
        assert(ev.take(i as int) + obj_insert(rest, k@, jv) =~= ev.take(i + 1) + obj_insert(
            ev.skip(i + 1),
            k@,
            jv,
        ));
        i = i + 1;
    }
    e.push((k, v));
    proof {
        lemma_entries_view(e@);
        assert(ev.skip(i as int) =~= Seq::<(Seq<char>, JsonView)>::empty());
        assert(entries_view(e@) =~= ev.take(i as int) + obj_insert(ev.skip(i as int), k@, jv));
    }
}

/// What `serde_json::from_str::<Value>` makes of a text, if it parses.
pub uninterp spec fn parsed_json(s: Seq<char>) -> Option<Json>;

/// What `serde_json::to_string_pretty` gives for a value: its text, or
/// `None` on a serialisation error.
pub uninterp spec fn pretty_json(v: Json) -> Option<Seq<char>>;

/// The value of `v` as a `Json`, one variant for one variant, an object's
/// entries in map order and a number as printed.
#[verifier::external_body]
fn json_from_value(v: &serde_json::Value) -> Json {
    match v {
        serde_json::Value::Null => Json::Null,
        serde_json::Value::Bool(b) => Json::Bool(*b),
        serde_json::Value::Number(n) => Json::Number(v.to_string(), n.as_u64()),
        serde_json::Value::String(s) => Json::Str(s.clone()),
        serde_json::Value::Array(a) => Json::Array(a.iter().map(json_from_value).collect()),
        serde_json::Value::Object(m) => Json::Object(m.iter().map(|(k, x)| (k.clone(), json_from_value(x))).collect()),
    }
}

/// The `serde_json::Value` a `Json` stands for.
#[verifier::external_body]
fn json_to_value(v: &Json) -> serde_json::Value {
    match v {
        Json::Null => serde_json::Value::Null,
        Json::Bool(b) => serde_json::Value::Bool(*b),
        Json::Number(t, _) => serde_json::from_str(t).unwrap_or(serde_json::Value::Null),
        Json::Str(s) => serde_json::Value::String(s.clone()),
        Json::Array(a) => serde_json::Value::Array(a.iter().map(json_to_value).collect()),
        Json::Object(m) => serde_json::Value::Object(m.iter().map(|(k, x)| (k.clone(), json_to_value(x))).collect()),
    }
}

/// Calls `serde_json::from_str::<serde_json::Value>`; the value parsed is
/// named by `parsed_json`, a function of the text alone. The parser's
/// recursion limit (128) bounds how deeply the value nests.
#[verifier::external_body]
pub(crate) fn parse_json(s: &str) -> (r: Option<Json>)
    ensures
        r == parsed_json(s@),
        r matches Some(j) ==> json_depth(j) <= 128,
{
    match serde_json::from_str::<serde_json::Value>(s) {
        Ok(v) => Some(json_from_value(&v)),
        Err(_) => None,
    }
}

/// Calls `serde_json::to_string_pretty` on the value; the outcome (text,
/// or `None` on an error) is named by `pretty_json`, a function of the
/// value alone.
#[verifier::external_body]
fn to_string_pretty(v: &Json) -> (r: Option<String>)
    ensures
        match r {
            Some(t) => pretty_json(*v) == Some(t@),
            None => pretty_json(*v) is None,
        },
{
    serde_json::to_string_pretty(&json_to_value(v)).ok()
}

// ---------------------------------------------------------------------
// Reading an event
// ---------------------------------------------------------------------

/// The value under `key` of an object.
pub open spec fn field(v: Json, key: Seq<char>) -> Option<Json> {
    match v {
        Json::Object(entries) => entry_of(entries@, key),
        _ => None,
    }
}

pub open spec fn entry_of(entries: Seq<(String, Json)>, key: Seq<char>) -> Option<Json>
    decreases entries.len(),
{
    if entries.len() == 0 {
        None
    } else if entries[0].0@ == key {
        Some(entries[0].1)
    } else {
        entry_of(entries.drop_first(), key)
    }
}

/// The text of a string field.
pub open spec fn str_field(v: Json, key: Seq<char>) -> Option<Seq<char>> {
    match field(v, key) {
        Some(Json::Str(s)) => Some(s@),
        _ => None,
    }
}

/// The value of a boolean field.
pub open spec fn bool_field(v: Json, key: Seq<char>) -> Option<bool> {
    match field(v, key) {
        Some(Json::Bool(b)) => Some(b),
        _ => None,
    }
}

/// The value of a non-negative integer field.
pub open spec fn u64_field(v: Json, key: Seq<char>) -> Option<u64> {
    match field(v, key) {
        Some(Json::Number(_, n)) => n,
        _ => None,
    }
}

pub(crate) fn field_exec<'a>(v: &'a Json, key: &str) -> (r: Option<&'a Json>)
    ensures
        match r {
            Some(x) => field(*v, key@) == Some(*x),
            None => field(*v, key@) is None,
        },
{
    match v {
        Json::Object(entries) => {
            let k = chars_of(key);
            let mut i: usize = 0;
            assert(entries@.subrange(0, entries@.len() as int) =~= entries@);
            while i < entries.len()
                invariant
                    i <= entries.len(),
                    k@ == key@,
                    field(*v, key@) == entry_of(entries@, key@),
                    entry_of(entries@.subrange(i as int, entries@.len() as int), key@) == entry_of(entries@, key@),
                decreases entries.len() - i,
            {
                let ghost rest = entries@.subrange(i as int, entries@.len() as int);
                assert(rest.drop_first() =~= entries@.subrange(i + 1, entries@.len() as int));
                assert(rest[0] == entries@[i as int]);
                if eq(&chars_of(entries[i].0.as_str()), &k) {
                    return Some(&entries[i].1);
                }
                i = i + 1;
            }
            None
        },
        _ => None,
    }
}

pub(crate) fn str_field_exec(v: &Json, key: &str) -> (r: Option<Vec<char>>)
    ensures
        match r {
            Some(s) => str_field(*v, key@) == Some(s@),
            None => str_field(*v, key@) is None,
        },
{
    match field_exec(v, key) {
        Some(Json::Str(s)) => Some(chars_of(s.as_str())),
        _ => None,
    }
}

fn text_or(r: Option<Vec<char>>, d: &str) -> (t: Vec<char>)
    ensures
        t@ == (match r { Some(s) => s@, None => d@ }),
{
    match r {
        Some(s) => s,
        None => chars_of(d),
    }
}

// ---------------------------------------------------------------------
// Options
// ---------------------------------------------------------------------

/// The options of `follow`.
pub struct FollowOpts {
    /// Keep only lines containing this text.
    pub needle: Option<String>,
    /// Drop process-manager events.
    pub quiet: bool,
    /// Compact pretty-printed JSON.
    pub json: bool,
    /// Human-readable indented JSON, strings unescaped.
    pub pretty: bool,
    /// Drop events whose command contains any of these.
    pub exclude: Vec<String>,
}

/// What the options say, as contracts speak of it.
pub struct OptsModel {
    pub needle: Option<Seq<char>>,
    pub quiet: bool,
    pub json: bool,
    pub pretty: bool,
    pub exclude: Seq<Seq<char>>,
}

impl View for FollowOpts {
    type V = OptsModel;

    open spec fn view(&self) -> OptsModel {
        OptsModel {
            needle: match self.needle {
                Some(n) => Some(n@),
                None => None,
            },
            quiet: self.quiet,
            json: self.json,
            pretty: self.pretty,
            exclude: strings_view(self.exclude@),
        }
    }
}

/// The options read from `args[i..]` onto `st`: `--quiet` / `-q`,
/// `--json`, `--pretty`, `--exclude LIST` or `--exclude=LIST` (the last
/// one given wins), and the first argument not starting with `-` as the
/// needle unless it is `all`; anything else is ignored.
pub open spec fn opts_from(args: Seq<Seq<char>>, i: int, st: OptsModel) -> OptsModel
    decreases args.len() - i,
{
    if i < 0 || i >= args.len() {
        st
    } else {
        let a = args[i];
        if a == "--quiet"@ || a == "-q"@ {
            opts_from(args, i + 1, OptsModel { quiet: true, ..st })
        } else if a == "--json"@ {
            opts_from(args, i + 1, OptsModel { json: true, ..st })
        } else if a == "--pretty"@ {
            opts_from(args, i + 1, OptsModel { pretty: true, ..st })
        } else if a == "--exclude"@ {
            if i + 1 < args.len() {
                opts_from(
                    args,
                    i + 2,
                    OptsModel { exclude: csv_items(split_char(args[i + 1], ',')), ..st },
                )
            } else {
                opts_from(args, i + 1, st)
            }
        } else if crate::text::starts_with(a, "--exclude="@) {
            opts_from(
                args,
                i + 1,
                OptsModel {
                    exclude: csv_items(split_char(a.subrange(10, a.len() as int), ',')),
                    ..st
                },
            )
        } else if !(a.len() > 0 && a[0] == '-') && st.needle is None {
            opts_from(
                args,
                i + 1,
                OptsModel {
                    needle: if a == "all"@ {
                        None
                    } else {
                        Some(a)
                    },
                    ..st
                },
            )
        } else {
            opts_from(args, i + 1, st)
        }
    }
}

/// The options after the program name and the subcommand.
pub open spec fn follow_opts(args: Seq<Seq<char>>) -> OptsModel {
    opts_from(
        args,
        2,
        OptsModel { needle: None, quiet: false, json: false, pretty: false, exclude: Seq::empty() },
    )
}

/// Reads the `follow` options from the command line (`args[0]` the
/// program, `args[1]` the subcommand).
pub fn parse_opts(args: &Vec<String>) -> (r: FollowOpts)
    ensures
        r@ == follow_opts(strings_view(args@)),
{
    let ghost av = strings_view(args@);
    let mut st = FollowOpts { needle: None, quiet: false, json: false, pretty: false, exclude: Vec::new() };
    assert(strings_view(st.exclude@) =~= Seq::<Seq<char>>::empty());
    let mut i: usize = 2;
    proof {
        reveal_strlit("--quiet");
        reveal_strlit("-q");
        reveal_strlit("--json");
        reveal_strlit("--pretty");
        reveal_strlit("--exclude");
        reveal_strlit("--exclude=");
        reveal_strlit("all");
    }
    while i < args.len()
        invariant
            2 <= i,
            i <= args.len() || i == 2,
            av == strings_view(args@),
            av.len() == args@.len(),
            opts_from(av, i as int, st@) == follow_opts(av),
            "--exclude="@.len() == 10,
        decreases args.len() + 2 - i,
    {
        let a = chars_of(args[i].as_str());
        assert(av[i as int] == a@);
        if eq_str(&a, "--quiet") || eq_str(&a, "-q") {
            st.quiet = true;
        } else if eq_str(&a, "--json") {
            st.json = true;
        } else if eq_str(&a, "--pretty") {
            st.pretty = true;
        } else if eq_str(&a, "--exclude") {
            if i + 1 < args.len() {
                assert(av[i + 1] == args@[i + 1]@);
                st.exclude = split_csv(args[i + 1].as_str());
                i = i + 1;
            }
        } else if crate::text::starts_with_str(&a, "--exclude=") {
            let rest = string_of(&tail(&a, 10));
            st.exclude = split_csv(rest.as_str());
        } else if !(a.len() > 0 && a[0] == '-') && st.needle.is_none() {
            if !eq_str(&a, "all") {
                st.needle = Some(string_of(&a));
            }
        }
        i = i + 1;
    }
    st
}

/// The non-empty trimmed entries of a comma list.
pub open spec fn csv_items(parts: Seq<Seq<char>>) -> Seq<Seq<char>>
    decreases parts.len(),
{
    if parts.len() == 0 {
        Seq::empty()
    } else {
        csv_items(parts.drop_last()) + if trim(parts.last()).len() > 0 { seq![trim(parts.last())] } else { Seq::empty() }
    }
}

/// Splits `D1, D2,...` into its non-empty trimmed names.
pub fn split_csv(v: &str) -> (r: Vec<String>)
    ensures
        strings_view(r@) == csv_items(split_char(v@, ',')),
{
    let parts = split_char_exec(&chars_of(v), ',');
    let ghost pv = views(parts@);
    let mut out: Vec<String> = Vec::new();
    let mut i: usize = 0;
    assert(pv.take(0) =~= Seq::<Seq<char>>::empty());
    assert(strings_view(out@) =~= Seq::<Seq<char>>::empty());
    while i < parts.len()
        invariant
            i <= parts.len(),
            pv == views(parts@),
            pv == split_char(v@, ','),
            strings_view(out@) == csv_items(pv.take(i as int)),
        decreases parts.len() - i,
    {
        assert(pv.take(i + 1).drop_last() =~= pv.take(i as int));
        let t = trim_exec(&parts[i]);
        let ghost b = strings_view(out@);
        if t.len() > 0 {
            out.push(string_of(&t));
            assert(strings_view(out@) =~= b + seq![t@]);
        } else {
            assert(strings_view(out@) =~= b + Seq::<Seq<char>>::empty());
        }
        i = i + 1;
    }
    assert(pv.take(parts.len() as int) =~= pv);
    out
}

/// Some excluded name occurs in the command.
pub open spec fn excluded(exclude: Seq<String>, command: Seq<char>) -> bool {
    exists|i: int| 0 <= i < exclude.len() && contains_seq(command, exclude[i]@)
}

/// The line passes the filters: not a process-manager event under
/// `quiet`, no excluded name in its command, and the needle in the line.
pub open spec fn keeps(opts: FollowOpts, line: Seq<char>, command: Seq<char>, source: Seq<char>) -> bool {
    &&& !(opts.quiet && source == "process-manager"@)
    &&& !excluded(opts.exclude@, command)
    &&& match opts.needle { Some(n) => contains_seq(line, n@), None => true }
}

fn keeps_exec(opts: &FollowOpts, line: &Vec<char>, command: &Vec<char>, source: &Vec<char>) -> (r: bool)
    ensures
        r == keeps(*opts, line@, command@, source@),
{
    if opts.quiet && eq_str(source, "process-manager") {
        return false;
    }
    let mut i: usize = 0;
    while i < opts.exclude.len()
        invariant
            i <= opts.exclude.len(),
            forall|k: int| 0 <= k < i ==> !contains_seq(command@, opts.exclude@[k]@),
        decreases opts.exclude.len() - i,
    {
        if contains_str(command, opts.exclude[i].as_str()) {
            return false;
        }
        i = i + 1;
    }
    match &opts.needle {
        Some(n) => contains_str(line, n.as_str()),
        None => true,
    }
}

// ---------------------------------------------------------------------
// Rendering
// ---------------------------------------------------------------------

/// `[Domain Aggregate Command]`, the command word bright cyan, the rest
/// dim.
pub open spec fn fqn_words(command: Seq<char>) -> Seq<Seq<char>> {
    let p = fqn_parts(command);
    seq![match p.0 { Some(x) => x, None => Seq::empty() }, p.1, p.2]
}

pub open spec fn dac_words(command: Seq<char>) -> Seq<Seq<char>> {
    crate::run_follow::block::nonempty_words(fqn_words(command))
}

pub open spec fn dac_label(command: Seq<char>) -> Seq<char> {
    crate::run_follow::block::render_prefix(dac_words(command))
}

/// How an event line renders: dropped, as finished text, or as a `done`
/// line whose elapsed time the caller writes between `head` and `tail`.
pub enum Rendered {
    Skip,
    Text(String),
    Done { head: String, elapsed_ms: u64, tail: String },
}

pub enum RenderedModel {
    Skip,
    Text(Seq<char>),
    Done(Seq<char>, u64, Seq<char>),
}

impl View for Rendered {
    type V = RenderedModel;

    open spec fn view(&self) -> RenderedModel {
        match self {
            Rendered::Skip => RenderedModel::Skip,
            Rendered::Text(t) => RenderedModel::Text(t@),
            Rendered::Done { head, elapsed_ms, tail } => RenderedModel::Done(head@, *elapsed_ms, tail@),
        }
    }
}

// ---------------------------------------------------------------------
// Human-readable JSON
// ---------------------------------------------------------------------

pub open spec fn spaces(n: nat) -> Seq<char> {
    Seq::new(n, |k: int| ' ')
}

/// A string in quotes, its quotes escaped.
pub open spec fn quoted_string(s: Seq<char>) -> Seq<char> {
    "\""@ + replace_all(s, "\""@, "\\\""@) + "\""@
}

/// Each line of a multi-line value on its own indented line.
pub open spec fn lines_block(ls: Seq<Seq<char>>, inner: Seq<char>) -> Seq<char>
    decreases ls.len(),
{
    if ls.len() == 0 { Seq::empty() } else { lines_block(ls.drop_last(), inner) + inner + "  "@ + ls.last() + "\n"@ }
}

/// The text of a value at `indent`: objects and arrays one entry per
/// line, strings quoted, scalars as printed.
pub open spec fn human(v: Json, indent: nat) -> Seq<char>
    decreases v, 0int,
{
    match v {
        Json::Object(e) => "{"@ + entries_upto(e@, indent, e@.len() as int) + "\n"@ + spaces(indent) + "}"@,
        Json::Array(a) => "["@ + items_upto(a@, indent, a@.len() as int) + "\n"@ + spaces(indent) + "]"@,
        Json::Str(s) => quoted_string(s@),
        Json::Null => "null"@,
        Json::Bool(b) => if b { "true"@ } else { "false"@ },
        Json::Number(t, _) => t@,
    }
}

/// The first `k` entries of an object at `indent`; a string holding a
/// newline is written as a block of its lines closed by `(end)`.
pub open spec fn entries_upto(e: Seq<(String, Json)>, indent: nat, k: int) -> Seq<char>
    decreases e, k,
{
    if k <= 0 || k > e.len() {
        Seq::empty()
    } else {
        let inner = spaces(indent + 2);
        let val = e[k - 1].1;
        let shown = match val {
            Json::Str(s) => if contains_char(s@, '\n') {
                "|\n"@ + lines_block(source_lines(s@), inner) + inner + "  (end)"@
            } else {
                quoted_string(s@)
            },
            _ => human(val, indent + 2),
        };
        entries_upto(e, indent, k - 1) + "\n"@ + inner + "\""@ + e[k - 1].0@ + "\": "@ + shown
            + if k < e.len() { ","@ } else { Seq::empty() }
    }
}

/// The first `k` items of an array at `indent`.
pub open spec fn items_upto(a: Seq<Json>, indent: nat, k: int) -> Seq<char>
    decreases a, k,
{
    if k <= 0 || k > a.len() {
        Seq::empty()
    } else {
        items_upto(a, indent, k - 1) + "\n"@ + spaces(indent + 2) + human(a[k - 1], indent + 2)
            + if k < a.len() { ","@ } else { Seq::empty() }
    }
}

proof fn lemma_entries_depth(e: Seq<(String, Json)>, i: int)
    requires
        0 <= i < e.len(),
    ensures
        json_depth(e[i].1) <= entries_depth(e),
    decreases e.len(),
{
    if i > 0 {
        lemma_entries_depth(e.drop_first(), i - 1);
        assert(e.drop_first()[i - 1] == e[i]);
    }
}

proof fn lemma_items_depth(a: Seq<Json>, i: int)
    requires
        0 <= i < a.len(),
    ensures
        json_depth(a[i]) <= items_depth(a),
    decreases a.len(),
{
    if i > 0 {
        lemma_items_depth(a.drop_first(), i - 1);
        assert(a.drop_first()[i - 1] == a[i]);
    }
}

fn spaces_exec(n: usize) -> (r: Vec<char>)
    ensures
        r@ == spaces(n as nat),
{
    let mut r: Vec<char> = Vec::new();
    while r.len() < n
        invariant
            r.len() <= n,
            r@ == spaces(r.len() as nat),
        decreases n - r.len(),
    {
        r.push(' ');
        assert(r@ =~= spaces(r.len() as nat));
    }
    r
}

fn quoted_exec(s: &Vec<char>) -> (r: Vec<char>)
    ensures
        r@ == quoted_string(s@),
{
    concat(&concat(&chars_of("\""), &replace_exec(s, "\"", "\\\"")), &chars_of("\""))
}

fn string_value_exec(s: &String, inner: &Vec<char>) -> (r: Vec<char>)
    ensures
        r@ == (if contains_char(s@, '\n') {
            "|\n"@ + lines_block(source_lines(s@), inner@) + inner@ + "  (end)"@
        } else {
            quoted_string(s@)
        }),
{
    let t = chars_of(s.as_str());
    if contains_char_exec(&t, '\n') {
        let ls = source_lines_exec(&t);
        let ghost lv = views(ls@);
        let mut block: Vec<char> = Vec::new();
        let mut i: usize = 0;
        assert(lv.take(0) =~= Seq::<Seq<char>>::empty());
        while i < ls.len()
            invariant
                i <= ls.len(),
                lv == views(ls@),
                block@ == lines_block(lv.take(i as int), inner@),
            decreases ls.len() - i,
        {
            assert(lv.take(i + 1).drop_last() =~= lv.take(i as int));
            assert(lv.take(i + 1).last() == ls@[i as int]@);
            block = concat(&concat(&concat(&concat(&block, inner), &chars_of("  ")), &ls[i]), &chars_of("\n"));
            i = i + 1;
        }
        assert(lv.take(ls.len() as int) =~= lv);
        concat(&concat(&concat(&chars_of("|\n"), &block), inner), &chars_of("  (end)"))
    } else {
        quoted_exec(&t)
    }
}

/// Writes a value as indented human-readable text; string values holding
/// newlines print as literal multi-line blocks.
#[verifier::spinoff_prover]
pub fn write_human(v: &Json, indent: usize) -> (r: Vec<char>)
    requires
        indent + 2 * json_depth(*v) + 2 <= usize::MAX,
    ensures
        r@ == human(*v, indent as nat),
    decreases v,
{
    match v {
        Json::Object(e) => {
            let inner = spaces_exec(indent + 2);
            let mut out: Vec<char> = Vec::new();
            let mut k: usize = 0;
            while k < e.len()
                invariant
                    k <= e.len(),
                    inner@ == spaces((indent + 2) as nat),
                    indent + 2 * json_depth(*v) + 2 <= usize::MAX,
                    *v == Json::Object(*e),
                    out@ == entries_upto(e@, indent as nat, k as int),
                decreases e.len() - k,
            {
                proof { lemma_entries_depth(e@, k as int); }
                let val = &e[k].1;
                let shown = match val {
                    Json::Str(s) => string_value_exec(s, &inner),
                    _ => write_human(val, indent + 2),
                };
                let mut piece = concat(&concat(&concat(&chars_of("\n"), &inner), &chars_of("\"")), &chars_of(e[k].0.as_str()));
                piece = concat(&concat(&piece, &chars_of("\": ")), &shown);
                let comma = if k + 1 < e.len() { chars_of(",") } else { Vec::new() };
                proof {
                    reveal_strlit(",");
                    reveal_strlit("\n");
                    reveal_strlit("\"");
                    reveal_strlit("\": ");
                }
                assert(piece@ == "\n"@ + inner@ + "\""@ + e@[k as int].0@ + "\": "@ + shown@);
                out = concat(&concat(&out, &piece), &comma);
                assert(out@ =~= entries_upto(e@, indent as nat, k + 1));
                k = k + 1;
            }
            let tail = concat(&concat(&chars_of("\n"), &spaces_exec(indent)), &chars_of("}"));
            concat(&concat(&chars_of("{"), &out), &tail)
        },
        Json::Array(a) => {
            let inner = spaces_exec(indent + 2);
            let mut out: Vec<char> = Vec::new();
            let mut k: usize = 0;
            while k < a.len()
                invariant
                    k <= a.len(),
                    inner@ == spaces((indent + 2) as nat),
                    indent + 2 * json_depth(*v) + 2 <= usize::MAX,
                    *v == Json::Array(*a),
                    out@ == items_upto(a@, indent as nat, k as int),
                decreases a.len() - k,
            {
                proof { lemma_items_depth(a@, k as int); }
                let shown = write_human(&a[k], indent + 2);
                let comma = if k + 1 < a.len() { chars_of(",") } else { Vec::new() };
                out = concat(&concat(&concat(&concat(&out, &chars_of("\n")), &inner), &shown), &comma);
                assert(out@ =~= items_upto(a@, indent as nat, k + 1));
                k = k + 1;
            }
            let tail = concat(&concat(&chars_of("\n"), &spaces_exec(indent)), &chars_of("]"));
            concat(&concat(&chars_of("["), &out), &tail)
        },
        Json::Str(s) => quoted_exec(&chars_of(s.as_str())),
        Json::Null => chars_of("null"),
        Json::Bool(b) => if *b { chars_of("true") } else { chars_of("false") },
        Json::Number(t, _) => chars_of(t.as_str()),
    }
}

// ---------------------------------------------------------------------
// One line of the stream
// ---------------------------------------------------------------------

pub open spec fn or_text(o: Option<Seq<char>>, d: Seq<char>) -> Seq<char> {
    match o { Some(x) => x, None => d }
}

/// The colour of an event's kind: red when it failed.
pub open spec fn event_colour(v: Json) -> Colour {
    let ok = match bool_field(v, "ok"@) { Some(b) => b, None => true };
    kind_colour(or_text(str_field(v, "kind"@), Seq::empty()), ok)
}

/// `[ts] [D A C] kind verb · source` for an event that is not `done`.
pub open spec fn event_text(v: Json, command: Seq<char>, source: Seq<char>) -> Seq<char> {
    code(Colour::Dim) + "["@ + or_text(str_field(v, "ts"@), Seq::empty()) + "]"@ + code(Colour::Reset) + " "@
        + dac_label(command) + " "@ + code(event_colour(v)) + or_text(str_field(v, "kind"@), Seq::empty()) + code(Colour::Reset)
        + " "@ + or_text(str_field(v, "verb"@), Seq::empty()) + " "@ + code(Colour::Dim) + "·"@ + code(Colour::Reset) + " "@
        + code(Colour::Magenta) + source + code(Colour::Reset)
}

/// The text of a `done` line before its elapsed time.
pub open spec fn done_head(v: Json, command: Seq<char>) -> Seq<char> {
    let outcome = or_text(str_field(v, "outcome"@), "ok"@);
    let oc = if outcome == "error"@ { Colour::BrightRed } else { Colour::Green };
    code(Colour::Dim) + "["@ + or_text(str_field(v, "ts"@), Seq::empty()) + "]"@ + code(Colour::Reset) + " "@
        + dac_label(command) + " "@ + code(event_colour(v)) + "done"@ + code(Colour::Reset) + " "@
        + code(oc) + outcome + code(Colour::Reset) + " "@ + code(Colour::Yellow)
}

/// The text of a `done` line after its elapsed time.
pub open spec fn done_tail(v: Json, source: Seq<char>) -> Seq<char> {
    let n = match u64_field(v, "event_count"@) { Some(n) => n, None => 0u64 };
    code(Colour::Reset) + " "@ + code(Colour::Dim) + "·"@ + code(Colour::Reset) + " "@ + dec_str(n as nat) + " "@
        + (if n == 1 { "event"@ } else { "events"@ }) + " "@ + code(Colour::Dim) + "·"@ + code(Colour::Reset) + " "@
        + code(Colour::Magenta) + source + code(Colour::Reset)
}

/// How one line of the stream renders under the options.
pub open spec fn rendered(line: Seq<char>, opts: FollowOpts) -> RenderedModel {
    let t = trim(line);
    match parsed_json(t) {
        None => RenderedModel::Skip,
        Some(v) => match str_field(v, "command"@) {
            None => RenderedModel::Skip,
            Some(command) => {
                let source = or_text(str_field(v, "source"@), Seq::empty());
                if !keeps(opts, t, command, source) {
                    RenderedModel::Skip
                } else if opts.pretty {
                    RenderedModel::Text(human(v, 0))
                } else if opts.json {
                    RenderedModel::Text(match pretty_json(v) { Some(p) => p, None => t })
                } else if or_text(str_field(v, "kind"@), Seq::empty()) == "done"@ {
                    RenderedModel::Done(
                        done_head(v, command),
                        match u64_field(v, "elapsed_ms"@) { Some(n) => n, None => 0u64 },
                        done_tail(v, source),
                    )
                } else {
                    RenderedModel::Text(event_text(v, command, source))
                }
            },
        },
    }
}

/// `--exclude` drops an event whose command contains any one of the
/// excluded names, whichever of them it is and whatever the other options
/// say.
pub proof fn law_excluded_commands_are_dropped(line: Seq<char>, opts: FollowOpts, v: Json, command: Seq<char>, i: int)
    requires
        parsed_json(trim(line)) == Some(v),
        str_field(v, "command"@) == Some(command),
        0 <= i < opts.exclude@.len(),
        contains_seq(command, opts.exclude@[i]@),
    ensures
        rendered(line, opts) == RenderedModel::Skip,
{
    assert(excluded(opts.exclude@, command));
}

/// `--quiet` drops process-manager events, and a needle drops every line
/// (trimmed) that does not contain it; a line that is not a JSON object
/// with a string `command` is dropped too.
pub proof fn law_quiet_and_needle_drop(line: Seq<char>, opts: FollowOpts)
    ensures
        (match parsed_json(trim(line)) {
            Some(v) => str_field(v, "command"@) is None,
            None => true,
        }) ==> rendered(line, opts) == RenderedModel::Skip,
        (opts.quiet && match parsed_json(trim(line)) {
            Some(v) => str_field(v, "source"@) == Some("process-manager"@),
            None => false,
        }) ==> rendered(line, opts) == RenderedModel::Skip,
        (match opts.needle {
            Some(n) => !contains_seq(trim(line), n@),
            None => false,
        }) ==> rendered(line, opts) == RenderedModel::Skip,
{
}

fn dac_exec(command: &Vec<char>) -> (r: Vec<char>)
    ensures
        r@ == dac_label(command@),
{
    proof { reveal_strlit(""); }
    let cs = string_of(command);
    let (c, a, v) = crate::run_serve::split_fqn(cs.as_str());
    let d = match c { Some(x) => chars_of(x.as_str()), None => Vec::new() };
    let mut ws: Vec<Vec<char>> = Vec::new();
    ws.push(d);
    ws.push(chars_of(a.as_str()));
    ws.push(chars_of(v.as_str()));
    assert(views(ws@) =~= fqn_words(command@));
    crate::run_follow::block::render_prefix_exec(&crate::run_follow::block::nonempty_exec(ws))
}

fn event_colour_exec(v: &Json) -> (r: Colour)
    ensures
        r == event_colour(*v),
{
    proof { reveal_strlit(""); }
    assert(""@ =~= Seq::<char>::empty());
    let ok = match field_exec(v, "ok") {
        Some(Json::Bool(b)) => *b,
        _ => true,
    };
    let kind = text_or(str_field_exec(v, "kind"), "");
    crate::run_follow::palette::colour_for(string_of(&kind).as_str(), ok)
}

fn u64_field_exec(v: &Json, key: &str) -> (r: u64)
    ensures
        r == (match u64_field(*v, key@) { Some(n) => n, None => 0u64 }),
{
    match field_exec(v, key) {
        Some(Json::Number(_, Some(n))) => *n,
        _ => 0,
    }
}

fn stamp_exec(v: &Json, command: &Vec<char>) -> (r: Vec<char>)
    ensures
        r@ == code(Colour::Dim) + "["@ + or_text(str_field(*v, "ts"@), Seq::empty()) + "]"@ + code(Colour::Reset) + " "@
            + dac_label(command@) + " "@ + code(event_colour(*v)),
{
    let mut o = concat(&colour_code(Colour::Dim), &chars_of("["));
    o = concat(&o, &text_or(str_field_exec(v, "ts"), ""));
    o = concat(&o, &chars_of("]"));
    o = concat(&o, &colour_code(Colour::Reset));
    o = concat(&o, &chars_of(" "));
    o = concat(&o, &dac_exec(command));
    o = concat(&o, &chars_of(" "));
    proof { reveal_strlit(""); }
    concat(&o, &colour_code(event_colour_exec(v)))
}

/// Parses one JSONL line, filters it, and renders it: human-readable
/// under `pretty`, pretty JSON under `json` (the line itself should
/// printing fail), else the terse coloured line. Lines that are not a
/// JSON object with a `command` string, and lines the options filter
/// out, are skipped.
pub fn render(line: &str, opts: &FollowOpts) -> (r: Rendered)
    ensures
        r@ == rendered(line@, *opts),
{
    proof {
        reveal_strlit("done");
        reveal_strlit("error");
        reveal_strlit("");
        reveal_strlit("ok");
    }
    assert(""@ =~= Seq::<char>::empty());
    let t = trim_exec(&chars_of(line));
    let ts = string_of(&t);
    let v = match parse_json(ts.as_str()) {
        Some(v) => v,
        None => return Rendered::Skip,
    };
    let command = match str_field_exec(&v, "command") {
        Some(c) => c,
        None => return Rendered::Skip,
    };
    let source = text_or(str_field_exec(&v, "source"), "");
    if !keeps_exec(opts, &t, &command, &source) {
        return Rendered::Skip;
    }
    if opts.pretty {
        return Rendered::Text(string_of(&write_human(&v, 0)));
    }
    if opts.json {
        return match to_string_pretty(&v) {
            Some(p) => Rendered::Text(p),
            None => Rendered::Text(ts),
        };
    }
    let kind = text_or(str_field_exec(&v, "kind"), "");
    let head = stamp_exec(&v, &command);
    if eq_str(&kind, "done") {
        let outcome = text_or(str_field_exec(&v, "outcome"), "ok");
        let oc = if eq_str(&outcome, "error") { Colour::BrightRed } else { Colour::Green };
        let mut h = concat(&head, &chars_of("done"));
        h = concat(&h, &colour_code(Colour::Reset));
        h = concat(&h, &chars_of(" "));
        h = concat(&h, &colour_code(oc));
        h = concat(&h, &outcome);
        h = concat(&h, &colour_code(Colour::Reset));
        h = concat(&h, &chars_of(" "));
        h = concat(&h, &colour_code(Colour::Yellow));
        let n = u64_field_exec(&v, "event_count");
        let mut tl = concat(&colour_code(Colour::Reset), &chars_of(" "));
        tl = concat(&tl, &colour_code(Colour::Dim));
        tl = concat(&tl, &chars_of("·"));
        tl = concat(&tl, &colour_code(Colour::Reset));
        tl = concat(&tl, &chars_of(" "));
        tl = concat(&tl, &u64_chars(n));
        tl = concat(&tl, &chars_of(" "));
        tl = concat(&tl, &(if n == 1 { chars_of("event") } else { chars_of("events") }));
        tl = concat(&tl, &chars_of(" "));
        tl = concat(&tl, &colour_code(Colour::Dim));
        tl = concat(&tl, &chars_of("·"));
        tl = concat(&tl, &colour_code(Colour::Reset));
        tl = concat(&tl, &chars_of(" "));
        tl = concat(&tl, &colour_code(Colour::Magenta));
        tl = concat(&tl, &source);
        tl = concat(&tl, &colour_code(Colour::Reset));
        let ms = u64_field_exec(&v, "elapsed_ms");
        return Rendered::Done { head: string_of(&h), elapsed_ms: ms, tail: string_of(&tl) };
    }
    let mut o = concat(&head, &kind);
    o = concat(&o, &colour_code(Colour::Reset));
    o = concat(&o, &chars_of(" "));
    o = concat(&o, &text_or(str_field_exec(&v, "verb"), ""));
    o = concat(&o, &chars_of(" "));
    o = concat(&o, &colour_code(Colour::Dim));
    o = concat(&o, &chars_of("·"));
    o = concat(&o, &colour_code(Colour::Reset));
    o = concat(&o, &chars_of(" "));
    o = concat(&o, &colour_code(Colour::Magenta));
    o = concat(&o, &source);
    o = concat(&o, &colour_code(Colour::Reset));
    Rendered::Text(string_of(&o))
}

} // verus!

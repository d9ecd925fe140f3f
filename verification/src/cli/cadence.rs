//! The cadence loops: a rotation of commands fired one per open tick, the
//! gate that holds a tick back, and the action specs of the tick driver.

use vstd::prelude::*;
use crate::ir::{group_views, seq_view};
use crate::text::{strings_view, starts_with, starts_with_str, eq_str, contains_seq, chars_of, concat, ends_with, ends_with_str, parse_u64, slice, u64_text, split_char, split_char_exec, split_once, split_once_exec, string_of, trim, trim_exec, views};

verus! {

broadcast use group_views;

/// The non-empty trimmed entries of a comma list, in order.
pub open spec fn rotation_from(parts: Seq<Seq<char>>) -> Seq<Seq<char>>
    decreases parts.len(),
{
    if parts.len() == 0 {
        Seq::empty()
    } else {
        rotation_from(parts.drop_last()) + if trim(parts.last()).len() > 0 { seq![trim(parts.last())] } else { Seq::empty() }
    }
}

/// The commands of `Cmd1,Cmd2,...`: split at commas, trimmed, empty
/// entries dropped.
pub fn split_rotation(cmd_full: &str) -> (r: Vec<String>)
    ensures
        seq_view(r@) == rotation_from(split_char(cmd_full@, ',')),
{
    let parts = split_char_exec(&chars_of(cmd_full), ',');
    let ghost pv = views(parts@);
    let mut out: Vec<String> = Vec::new();
    let mut i: usize = 0;
    assert(pv.take(0) =~= Seq::<Seq<char>>::empty());
    while i < parts.len()
        invariant
            i <= parts.len(),
            pv == views(parts@),
            pv == split_char(cmd_full@, ','),
            seq_view(out@) == rotation_from(pv.take(i as int)),
        decreases parts.len() - i,
    {
        assert(pv.take(i + 1).drop_last() =~= pv.take(i as int));
        let t = trim_exec(&parts[i]);
        if t.len() > 0 {
            out.push(string_of(&t));
        }
        i = i + 1;
    }
    assert(pv.take(pv.len() as int) =~= pv);
    out
}

/// `--gate <file.heki>:<field>=<value>`: the path before the first `:`,
/// then the field and value either side of the first `=` after it.
pub open spec fn gate_spec(spec: Seq<char>) -> Option<(Seq<char>, Seq<char>, Seq<char>)> {
    match split_once(spec, ':') {
        Some((path, pred)) => match split_once(pred, '=') {
            Some((field, value)) => Some((path, field, value)),
            None => None,
        },
        None => None,
    }
}

/// Parses a gate spec; `None` leaves the loop ungated.
pub fn parse_gate(spec: &str) -> (r: Option<(String, String, String)>)
    ensures
        match r {
            Some(g) => gate_spec(spec@) == Some((g.0@, g.1@, g.2@)),
            None => gate_spec(spec@) is None,
        },
{
    let (path, pred) = match split_once_exec(&chars_of(spec), ':') {
        Some(p) => p,
        None => return None,
    };
    match split_once_exec(&pred, '=') {
        Some((f, v)) => Some((string_of(&path), string_of(&f), string_of(&v))),
        None => None,
    }
}

/// One tick of a rotation of `n` commands at position `idx`: an open gate
/// fires command `idx % n` and advances (wrapping at the top of `usize`);
/// a closed gate fires nothing and stays.
pub fn rotation_tick(idx: usize, gate_open: bool, n: usize) -> (r: (Option<usize>, usize))
    requires
        n > 0,
    ensures
        gate_open ==> r.0 == Some((idx % n) as usize),
        gate_open ==> r.1 == (if idx == usize::MAX { 0 } else { idx + 1 }),
        !gate_open ==> r.0 is None && r.1 == idx,
{
    if gate_open {
        let next = if idx == usize::MAX { 0 } else { idx + 1 };
        (Some(idx % n), next)
    } else {
        (None, idx)
    }
}

/// The parts of `s` split at `c`, at most `n` of them, the last holding
/// the rest (`str::splitn`).
pub open spec fn splitn(s: Seq<char>, n: nat, c: char) -> Seq<Seq<char>>
    decreases n,
{
    if n <= 1 {
        seq![s]
    } else {
        match split_once(s, c) {
            Some((a, b)) => seq![a] + splitn(b, (n - 1) as nat, c),
            None => seq![s],
        }
    }
}

/// `--emit Event:AggType:AggId`, the id keeping any further `:`.
pub open spec fn emit_spec(spec: Seq<char>) -> Result<(Seq<char>, Seq<char>, Seq<char>), Seq<char>> {
    let parts = splitn(spec, 3, ':');
    if parts.len() == 3 {
        Ok((parts[0], parts[1], parts[2]))
    } else {
        Err("run-loop : --emit needs Event:AggType:AggId, got '"@ + spec + "'"@)
    }
}

/// Parses an `--emit` value, or gives the message it is refused with.
pub fn parse_emit(spec: &str) -> (r: Result<(String, String, String), String>)
    ensures
        match r {
            Ok(e) => emit_spec(spec@) == Ok::<(Seq<char>, Seq<char>, Seq<char>), Seq<char>>((e.0@, e.1@, e.2@)),
            Err(m) => emit_spec(spec@) == Err::<(Seq<char>, Seq<char>, Seq<char>), Seq<char>>(m@),
        },
{
    let s = chars_of(spec);
    let refuse = concat(&concat(&chars_of("run-loop : --emit needs Event:AggType:AggId, got '"), &s), &chars_of("'"));
    match split_once_exec(&s, ':') {
        Some((a, rest)) => match split_once_exec(&rest, ':') {
            Some((b, c)) => {
                assert(splitn(c@, 1, ':') == seq![c@]);
                assert(splitn(rest@, 2, ':') =~= seq![b@, c@]);
                assert(splitn(s@, 3, ':') =~= seq![a@, b@, c@]);
                Ok((string_of(&a), string_of(&b), string_of(&c)))
            },
            None => {
                assert(splitn(rest@, 2, ':') =~= seq![rest@]);
                assert(splitn(s@, 3, ':').len() == 2);
                Err(string_of(&refuse))
            },
        },
        None => Err(string_of(&refuse)),
    }
}

/// A one-shot first-tick emission: when `aggregate.field == expected`,
/// emit `event` on `(emit_type, emit_id)`.
pub struct Bootstrap {
    pub aggregate: String,
    pub field: String,
    pub expected: String,
    pub event: String,
    pub emit_type: String,
    pub emit_id: String,
}

/// `--bootstrap-if <Agg>.<field>=<expected>:<Event>:<EmitAggType>:<EmitAggId>`:
/// four `:` parts, then the predicate split at its first `=` and its
/// left side at its first `.`.
pub open spec fn bootstrap_spec(spec: Seq<char>) -> Result<Seq<Seq<char>>, Seq<char>> {
    let parts = splitn(spec, 4, ':');
    if parts.len() != 4 {
        Err("run-loop : --bootstrap-if needs <Agg>.<field>=<expected>:<Event>:<EmitAggType>:<EmitAggId>, got '"@ + spec + "'"@)
    } else {
        match split_once(parts[0], '=') {
            None => Err("run-loop : --bootstrap-if predicate must contain '=', got '"@ + parts[0] + "'"@),
            Some((lhs, expected)) => match split_once(lhs, '.') {
                None => Err("run-loop : --bootstrap-if predicate lhs must be <Aggregate>.<field>, got '"@ + lhs + "'"@),
                Some((agg, field)) => Ok(seq![agg, field, expected, parts[1], parts[2], parts[3]]),
            },
        }
    }
}

pub open spec fn bootstrap_view(b: Bootstrap) -> Seq<Seq<char>> {
    seq![b.aggregate@, b.field@, b.expected@, b.event@, b.emit_type@, b.emit_id@]
}

fn splitn4(s: &Vec<char>) -> (r: Option<(Vec<char>, Vec<char>, Vec<char>, Vec<char>)>)
    ensures
        match r {
            Some(p) => splitn(s@, 4, ':') == seq![p.0@, p.1@, p.2@, p.3@],
            None => splitn(s@, 4, ':').len() != 4,
        },
{
    let (a, r1) = match split_once_exec(s, ':') {
        Some(p) => p,
        None => return None,
    };
    let (b, r2) = match split_once_exec(&r1, ':') {
        Some(p) => p,
        None => {
            assert(splitn(r1@, 3, ':') =~= seq![r1@]);
            return None;
        },
    };
    let (c, d) = match split_once_exec(&r2, ':') {
        Some(p) => p,
        None => {
            assert(splitn(r2@, 2, ':') =~= seq![r2@]);
            assert(splitn(r1@, 3, ':') =~= seq![b@, r2@]);
            return None;
        },
    };
    assert(splitn(d@, 1, ':') == seq![d@]);
    assert(splitn(r2@, 2, ':') =~= seq![c@, d@]);
    assert(splitn(r1@, 3, ':') =~= seq![b@, c@, d@]);
    assert(splitn(s@, 4, ':') =~= seq![a@, b@, c@, d@]);
    Some((a, b, c, d))
}

/// Parses a `--bootstrap-if` value, or gives the message it is refused
/// with.
pub fn parse_bootstrap(spec: &str) -> (r: Result<Bootstrap, String>)
    ensures
        match r {
            Ok(b) => bootstrap_spec(spec@) == Ok::<Seq<Seq<char>>, Seq<char>>(bootstrap_view(b)),
            Err(m) => bootstrap_spec(spec@) == Err::<Seq<Seq<char>>, Seq<char>>(m@),
        },
{
    let s = chars_of(spec);
    let (pred, event, emit_type, emit_id) = match splitn4(&s) {
        Some(p) => p,
        None => {
            let m = concat(&chars_of("run-loop : --bootstrap-if needs <Agg>.<field>=<expected>:<Event>:<EmitAggType>:<EmitAggId>, got '"), &s);
            return Err(string_of(&concat(&m, &chars_of("'"))));
        },
    };
    let (lhs, expected) = match split_once_exec(&pred, '=') {
        Some(p) => p,
        None => {
            let m = concat(&chars_of("run-loop : --bootstrap-if predicate must contain '=', got '"), &pred);
            return Err(string_of(&concat(&m, &chars_of("'"))));
        },
    };
    let (agg, field) = match split_once_exec(&lhs, '.') {
        Some(p) => p,
        None => {
            let m = concat(&chars_of("run-loop : --bootstrap-if predicate lhs must be <Aggregate>.<field>, got '"), &lhs);
            return Err(string_of(&concat(&m, &chars_of("'"))));
        },
    };
    let b = Bootstrap {
        aggregate: string_of(&agg),
        field: string_of(&field),
        expected: string_of(&expected),
        event: string_of(&event),
        emit_type: string_of(&emit_type),
        emit_id: string_of(&emit_id),
    };
    assert(bootstrap_view(b) =~= seq![agg@, field@, expected@, event@, emit_type@, emit_id@]);
    Ok(b)
}


// ---------------------------------------------------------------------
// The loop's period
// ---------------------------------------------------------------------

/// A loop period as read from its text.
pub enum LoopSpan {
    /// A whole number of milliseconds.
    Millis(u128),
    /// A number of seconds, as written before the `s` unit (trimmed); the
    /// caller reads it as a float.
    Seconds(String),
}

pub enum LoopSpanModel {
    Millis(int),
    Seconds(Seq<char>),
}

impl View for LoopSpan {
    type V = LoopSpanModel;

    open spec fn view(&self) -> LoopSpanModel {
        match self {
            LoopSpan::Millis(m) => LoopSpanModel::Millis(*m as int),
            LoopSpan::Seconds(t) => LoopSpanModel::Seconds(t@),
        }
    }
}

/// The number before a unit of `k` characters, trimmed, as a `u64`.
pub open spec fn unit_count(t: Seq<char>, k: int) -> Option<int> {
    u64_text(trim(t.subrange(0, t.len() - k)))
}

/// The seconds an hours (`h`) or minutes (`m`) period names, when the
/// number before its unit parses.
pub open spec fn hour_or_minute_count(s: Seq<char>) -> Option<int> {
    let t = trim(s);
    if ends_with(t, "ms"@) {
        None
    } else if ends_with(t, "h"@) {
        match unit_count(t, 1) {
            Some(n) => Some(n * 3600),
            None => None,
        }
    } else if ends_with(t, "m"@) {
        match unit_count(t, 1) {
            Some(n) => Some(n * 60),
            None => None,
        }
    } else {
        None
    }
}

/// The period of `storehouse loop --every`: `N` milliseconds with `ms`,
/// `N` hours with `h`, `N` minutes with `m`, seconds (as text) with `s`,
/// else `N` bare seconds; `None` where the number does not parse.
pub open spec fn loop_span(s: Seq<char>) -> Option<LoopSpanModel> {
    let t = trim(s);
    if ends_with(t, "ms"@) {
        match unit_count(t, 2) {
            Some(n) => Some(LoopSpanModel::Millis(n)),
            None => None,
        }
    } else if ends_with(t, "h"@) || ends_with(t, "m"@) {
        match hour_or_minute_count(s) {
            Some(secs) => Some(LoopSpanModel::Millis(secs * 1000)),
            None => None,
        }
    } else if ends_with(t, "s"@) {
        Some(LoopSpanModel::Seconds(trim(t.subrange(0, t.len() - 1))))
    } else {
        match u64_text(t) {
            Some(n) => Some(LoopSpanModel::Millis(n * 1000)),
            None => None,
        }
    }
}

/// Reads a loop period (`1s`, `500ms`, `2m`, `5h`, or bare seconds). An
/// hour or minute count whose seconds overflow `u64` is left out.
pub fn parse_loop_duration(s: &str) -> (r: Option<LoopSpan>)
    requires
        hour_or_minute_count(s@) matches Some(secs) ==> secs <= u64::MAX,
    ensures
        match r {
            Some(x) => loop_span(s@) == Some(x@),
            None => loop_span(s@) is None,
        },
{
    let t = trim_exec(&chars_of(s));
    proof {
        reveal_strlit("ms");
        reveal_strlit("s");
        reveal_strlit("m");
        reveal_strlit("h");
    }
    let n = t.len();
    if ends_with_str(&t, "ms") {
        return match parse_u64(&trim_exec(&slice(&t, 0, n - 2))) {
            Some(v) => Some(LoopSpan::Millis(v as u128)),
            None => None,
        };
    }
    if ends_with_str(&t, "h") || ends_with_str(&t, "m") {
        let per: u128 = if ends_with_str(&t, "h") { 3600 } else { 60 };
        return match parse_u64(&trim_exec(&slice(&t, 0, n - 1))) {
            Some(v) => Some(LoopSpan::Millis(v as u128 * per * 1000)),
            None => None,
        };
    }
    if ends_with_str(&t, "s") {
        return Some(LoopSpan::Seconds(string_of(&trim_exec(&slice(&t, 0, n - 1)))));
    }
    match parse_u64(&t) {
        Some(v) => Some(LoopSpan::Millis(v as u128 * 1000)),
        None => None,
    }
}


// ---------------------------------------------------------------------
// The command line of `run-loop`
// ---------------------------------------------------------------------

/// The value after the first `--every`, or `1s`.
pub open spec fn every_from(args: Seq<Seq<char>>, i: int) -> Seq<char>
    decreases args.len() - i,
{
    if i < 0 || i >= args.len() {
        "1s"@
    } else if args[i] == "--every"@ {
        if i + 1 < args.len() {
            args[i + 1]
        } else {
            "1s"@
        }
    } else {
        every_from(args, i + 1)
    }
}

/// What the `run-loop` arguments ask for: the cadenced emits and
/// dispatches, the predicate-gated first-tick emits, and the `key=value`
/// attributes (a later one for a key replaces an earlier one).
pub struct LoopArgs {
    pub every: String,
    pub emits: Vec<(String, String, String)>,
    pub dispatches: Vec<String>,
    pub bootstraps: Vec<Bootstrap>,
    pub attrs: Vec<(String, String)>,
}

#[verifier::ext_equal]
pub struct LoopArgsModel {
    pub emits: Seq<(Seq<char>, Seq<char>, Seq<char>)>,
    pub dispatches: Seq<Seq<char>>,
    pub bootstraps: Seq<Seq<Seq<char>>>,
    pub attrs: Seq<(Seq<char>, Seq<char>)>,
}

pub open spec fn loop_args_view(a: LoopArgs) -> LoopArgsModel {
    LoopArgsModel {
        emits: a.emits@.map_values(|e: (String, String, String)| (e.0@, e.1@, e.2@)),
        dispatches: strings_view(a.dispatches@),
        bootstraps: a.bootstraps@.map_values(|b: Bootstrap| bootstrap_view(b)),
        attrs: a.attrs@.map_values(|p: (String, String)| (p.0@, p.1@)),
    }
}

/// The arguments from `args[i..]` onto `st`, or the message the first bad
/// one is refused with.
pub open spec fn loop_args_from(args: Seq<Seq<char>>, i: int, st: LoopArgsModel) -> Result<
    LoopArgsModel,
    Seq<char>,
>
    decreases args.len() - i,
{
    if i < 0 || i >= args.len() {
        Ok(st)
    } else {
        let a = args[i];
        if a == "--every"@ {
            if i + 1 < args.len() {
                loop_args_from(args, i + 2, st)
            } else {
                Ok(st)
            }
        } else if a == "--emit"@ {
            if i + 1 < args.len() {
                match emit_spec(args[i + 1]) {
                    Ok(e) => loop_args_from(args, i + 2, LoopArgsModel { emits: st.emits.push(e), ..st }),
                    Err(m) => Err(m),
                }
            } else {
                Ok(st)
            }
        } else if a == "--bootstrap-if"@ {
            if i + 1 < args.len() {
                match bootstrap_spec(args[i + 1]) {
                    Ok(b) => loop_args_from(
                        args,
                        i + 2,
                        LoopArgsModel { bootstraps: st.bootstraps.push(b), ..st },
                    ),
                    Err(m) => Err(m),
                }
            } else {
                Ok(st)
            }
        } else if a == "--dispatch"@ {
            if i + 1 < args.len() {
                if !contains_seq(args[i + 1], "::"@) {
                    Err(crate::cli::clock::short_form_message("run-loop"@, args[i + 1]))
                } else {
                    loop_args_from(
                        args,
                        i + 2,
                        LoopArgsModel { dispatches: st.dispatches.push(args[i + 1]), ..st },
                    )
                }
            } else {
                Ok(st)
            }
        } else if starts_with(a, "--"@) {
            loop_args_from(args, i + 1, st)
        } else {
            match split_once(a, '=') {
                Some((k, v)) => loop_args_from(
                    args,
                    i + 1,
                    LoopArgsModel { attrs: st.attrs.push((k, v)), ..st },
                ),
                None => loop_args_from(args, i + 1, st),
            }
        }
    }
}

/// The arguments after `run-loop <target>`, with a 1 Hz `BodyPulse` emit
/// when neither an emit nor a dispatch was asked for.
pub open spec fn loop_args(args: Seq<Seq<char>>) -> Result<LoopArgsModel, Seq<char>> {
    match loop_args_from(
        args,
        3,
        LoopArgsModel { emits: Seq::empty(), dispatches: Seq::empty(), bootstraps: Seq::empty(), attrs: Seq::empty() },
    ) {
        Ok(m) => Ok(
            if m.emits.len() == 0 && m.dispatches.len() == 0 {
                LoopArgsModel { emits: seq![("BodyPulse"@, "Pulse"@, "pulse"@)], ..m }
            } else {
                m
            },
        ),
        Err(e) => Err(e),
    }
}

fn every_exec(args: &Vec<String>) -> (r: String)
    ensures
        r@ == every_from(strings_view(args@), 0),
{
    let ghost av = strings_view(args@);
    let mut i: usize = 0;
    while i < args.len()
        invariant
            i <= args.len(),
            av == strings_view(args@),
            av.len() == args@.len(),
            every_from(av, i as int) == every_from(av, 0),
        decreases args.len() - i,
    {
        assert(av[i as int] == args@[i as int]@);
        if eq_str(&chars_of(args[i].as_str()), "--every") {
            if i + 1 < args.len() {
                assert(av[i + 1] == args@[i + 1]@);
                return string_of(&chars_of(args[i + 1].as_str()));
            }
            return "1s".to_owned();
        }
        i = i + 1;
    }
    "1s".to_owned()
}

/// Reads the `run-loop` command line (`args[2]` the target): the period
/// text, then each `--emit`, `--bootstrap-if`, `--dispatch` and
/// `key=value` in order; a refused value gives its message.
pub fn parse_loop_args(args: &Vec<String>) -> (r: Result<LoopArgs, String>)
    ensures
        match r {
            Ok(a) => a.every@ == every_from(strings_view(args@), 0) && loop_args(strings_view(args@))
                == Ok::<LoopArgsModel, Seq<char>>(loop_args_view(a)),
            Err(m) => loop_args(strings_view(args@)) == Err::<LoopArgsModel, Seq<char>>(m@),
        },
{
    let ghost av = strings_view(args@);
    let every = every_exec(args);
    let mut st = LoopArgs { every, emits: Vec::new(), dispatches: Vec::new(), bootstraps: Vec::new(), attrs: Vec::new() };
    let ghost start = loop_args_view(st);
    assert(start =~= LoopArgsModel { emits: Seq::empty(), dispatches: Seq::empty(), bootstraps: Seq::empty(), attrs: Seq::empty() });
    let n = args.len();
    let mut i: usize = 3;
    while i < n
        invariant
            3 <= i,
            i <= n || i == 3,
            n == args.len(),
            av == strings_view(args@),
            av.len() == n,
            st.every@ == every_from(av, 0),
            loop_args_from(av, i as int, loop_args_view(st)) == loop_args_from(av, 3, start),
            start == (LoopArgsModel { emits: Seq::empty(), dispatches: Seq::empty(), bootstraps: Seq::empty(), attrs: Seq::empty() }),
        decreases n + 3 - i,
    {
        proof {
            reveal_strlit("--every");
            reveal_strlit("--emit");
            reveal_strlit("--bootstrap-if");
            reveal_strlit("--dispatch");
            reveal_strlit("--");
        }
        let a = chars_of(args[i].as_str());
        assert(av[i as int] == a@);
        if i + 1 < n {
            assert(av[i + 1] == args@[i + 1]@);
        }
        let ghost before = loop_args_view(st);
        if eq_str(&a, "--every") {
            i = if i + 1 < n { i + 2 } else { n };
        } else if eq_str(&a, "--emit") {
            if i + 1 < n {
                match parse_emit(args[i + 1].as_str()) {
                    Ok(e) => {
                        st.emits.push(e);
                        assert(loop_args_view(st) =~= LoopArgsModel { emits: before.emits.push((e.0@, e.1@, e.2@)), ..before });
                    },
                    Err(m) => return Err(m),
                }
            }
            i = if i + 1 < n { i + 2 } else { n };
        } else if eq_str(&a, "--bootstrap-if") {
            if i + 1 < n {
                match parse_bootstrap(args[i + 1].as_str()) {
                    Ok(b) => {
                        let ghost bv = bootstrap_view(b);
                        st.bootstraps.push(b);
                        assert(loop_args_view(st) =~= LoopArgsModel { bootstraps: before.bootstraps.push(bv), ..before });
                    },
                    Err(m) => return Err(m),
                }
            }
            i = if i + 1 < n { i + 2 } else { n };
        } else if eq_str(&a, "--dispatch") {
            if i + 1 < n {
                match crate::cli::clock::fqn_address_error("run-loop", args[i + 1].as_str()) {
                    Some(m) => return Err(m),
                    None => {},
                }
                let d = string_of(&chars_of(args[i + 1].as_str()));
                st.dispatches.push(d);
                assert(loop_args_view(st) =~= LoopArgsModel { dispatches: before.dispatches.push(d@), ..before });
            }
            i = if i + 1 < n { i + 2 } else { n };
        } else if starts_with_str(&a, "--") {
            i = i + 1;
        } else {
            match split_once_exec(&a, '=') {
                Some((k, v)) => {
                    let ks = string_of(&k);
                    let vs = string_of(&v);
                    st.attrs.push((ks, vs));
                    assert(loop_args_view(st) =~= LoopArgsModel { attrs: before.attrs.push((k@, v@)), ..before });
                },
                None => {},
            }
            i = i + 1;
        }
    }
    if st.emits.len() == 0 && st.dispatches.len() == 0 {
        let ghost before = loop_args_view(st);
        st.emits.push(("BodyPulse".to_owned(), "Pulse".to_owned(), "pulse".to_owned()));
        assert(loop_args_view(st) =~= LoopArgsModel { emits: seq![("BodyPulse"@, "Pulse"@, "pulse"@)], ..before });
    }
    Ok(st)
}

} // verus!

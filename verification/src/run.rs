//! Script mode: the exit codes of `storehouse run` and the detection of
//! an interactive stdin loop.

use vstd::prelude::*;
use crate::ir::{Domain, DomainModel, group_views, seq_view};
use crate::projection::terraform::{Hecksagon, IoAdapter};
use crate::text::{chars_of, eq_str, slice, split_once, split_once_exec, starts_with, starts_with_str, string_of};

verus! {

broadcast use group_views;

/// How a script run ends.
#[derive(Debug, Clone, Copy, PartialEq, Eq, Structural)]
pub enum ExitKind {
    Success,
    ParseFailure,
    GuardFailure,
    AdapterFailure,
    CommandNotFound,
}

impl ExitKind {
    /// The process exit code: 0 clean, 1 parse failure, 2 guard failure,
    /// 3 adapter failure, 4 command not found.
    pub fn code(self) -> (r: i32)
        ensures
            r == (match self {
                ExitKind::Success => 0i32,
                ExitKind::ParseFailure => 1i32,
                ExitKind::GuardFailure => 2i32,
                ExitKind::AdapterFailure => 3i32,
                ExitKind::CommandNotFound => 4i32,
            }),
    {
        match self {
            ExitKind::Success => 0,
            ExitKind::ParseFailure => 1,
            ExitKind::GuardFailure => 2,
            ExitKind::AdapterFailure => 3,
            ExitKind::CommandNotFound => 4,
        }
    }
}

/// The hecksagon declares an I/O adapter of `kind`.
pub open spec fn declares_io(adapters: Seq<IoAdapter>, kind: Seq<char>) -> bool {
    exists|i: int| 0 <= i < adapters.len() && adapters[i].kind@ == kind
}

/// Some aggregate of the domain has a command named `name`.
pub open spec fn has_command(d: DomainModel, name: Seq<char>) -> bool {
    exists|a: int, c: int| 0 <= a < d.aggregates.len() && 0 <= c < d.aggregates[a].commands.len()
        && d.aggregates[a].commands[c].name == name
}

fn declares_io_exec(adapters: &Vec<IoAdapter>, kind: &str) -> (r: bool)
    ensures
        r == declares_io(adapters@, kind@),
{
    let mut i: usize = 0;
    while i < adapters.len()
        invariant
            i <= adapters.len(),
            forall|k: int| 0 <= k < i ==> adapters@[k].kind@ != kind@,
        decreases adapters.len() - i,
    {
        if eq_str(&chars_of(adapters[i].kind.as_str()), kind) {
            return true;
        }
        i = i + 1;
    }
    false
}

fn has_command_exec(d: &Domain, name: &str) -> (r: bool)
    ensures
        r == has_command(d@, name@),
{
    let ghost dv = d@;
    let mut a: usize = 0;
    while a < d.aggregates.len()
        invariant
            a <= d.aggregates.len(),
            dv == d@,
            forall|x: int, c: int| 0 <= x < a && 0 <= c < dv.aggregates[x].commands.len()
                ==> dv.aggregates[x].commands[c].name != name@,
        decreases d.aggregates.len() - a,
    {
        let cmds = &d.aggregates[a].commands;
        assert(dv.aggregates[a as int] == d.aggregates@[a as int]@);
        let mut c: usize = 0;
        while c < cmds.len()
            invariant
                c <= cmds.len(),
                a < d.aggregates.len(),
                dv == d@,
                cmds == &d.aggregates@[a as int].commands,
                dv.aggregates[a as int].commands == seq_view(cmds@),
                forall|k: int| 0 <= k < c ==> dv.aggregates[a as int].commands[k].name != name@,
            decreases cmds.len() - c,
        {
            if eq_str(&chars_of(cmds[c].name.as_str()), name) {
                assert(dv.aggregates[a as int].commands[c as int].name == name@);
                return true;
            }
            c = c + 1;
        }
        a = a + 1;
    }
    false
}

/// A script runs as an interactive loop when its hecksagon declares both
/// `stdin` and `stdout` adapters and some aggregate offers both
/// `ReadLine` and `RespondWith`.
pub fn is_stdin_loop_capability(hecksagon: &Hecksagon, domain: &Domain) -> (r: bool)
    ensures
        r == (declares_io(hecksagon.io_adapters@, "stdin"@) && declares_io(hecksagon.io_adapters@, "stdout"@)
            && has_command(domain@, "ReadLine"@) && has_command(domain@, "RespondWith"@)),
{
    let has_stdio = declares_io_exec(&hecksagon.io_adapters, "stdin") && declares_io_exec(&hecksagon.io_adapters, "stdout");
    if !has_stdio {
        return false;
    }
    has_command_exec(domain, "ReadLine") && has_command_exec(domain, "RespondWith")
}

/// The first `entrypoint=<name>` among the extra arguments, from `i` on.
pub open spec fn cli_entrypoint(extra: Seq<Seq<char>>, i: int) -> Option<Seq<char>>
    decreases extra.len() - i,
{
    if i < 0 || i >= extra.len() {
        None
    } else if starts_with(extra[i], "entrypoint="@) {
        Some(extra[i].subrange(11, extra[i].len() as int))
    } else {
        cli_entrypoint(extra, i + 1)
    }
}

/// What a script run dispatches, or how it exits first: a source whose
/// parse has no name is no bluebook (parse failure); an `entrypoint=`
/// argument wins over the bluebook's own entrypoint; with neither the
/// run is refused (guard failure).
pub open spec fn script_entry(d: DomainModel, extra: Seq<Seq<char>>) -> Result<Seq<char>, ExitKind> {
    if d.name.len() == 0 {
        Err(ExitKind::ParseFailure)
    } else {
        match cli_entrypoint(extra, 0) {
            Some(e) => Ok(e),
            None => match d.entrypoint {
                Some(e) => Ok(e),
                None => Err(ExitKind::GuardFailure),
            },
        }
    }
}

/// The command a script run dispatches, from the parsed bluebook and the
/// arguments after its path; or the exit kind when it cannot start.
pub fn script_entrypoint(domain: &Domain, extra: &Vec<String>) -> (r: Result<String, ExitKind>)
    ensures
        match r {
            Ok(e) => script_entry(domain@, seq_view(extra@)) == Ok::<Seq<char>, ExitKind>(e@),
            Err(k) => script_entry(domain@, seq_view(extra@)) == Err::<Seq<char>, ExitKind>(k),
        },
{
    if domain.name.as_str().is_empty() {
        return Err(ExitKind::ParseFailure);
    }
    let ghost ev = seq_view(extra@);
    proof {
        reveal_strlit("entrypoint=");
    }
    let mut i: usize = 0;
    while i < extra.len()
        invariant
            i <= extra.len(),
            ev == seq_view(extra@),
            "entrypoint="@.len() == 11,
            domain@.name.len() > 0,
            cli_entrypoint(ev, i as int) == cli_entrypoint(ev, 0),
        decreases extra.len() - i,
    {
        let a = chars_of(extra[i].as_str());
        assert(ev[i as int] == a@);
        if starts_with_str(&a, "entrypoint=") {
            let e = slice(&a, 11, a.len());
            return Ok(string_of(&e));
        }
        i = i + 1;
    }
    match &domain.entrypoint {
        Some(e) => Ok(e.clone()),
        None => Err(ExitKind::GuardFailure),
    }
}

/// The `key=value` arguments of a script run as attribute pairs, in
/// order; arguments without `=` are skipped.
pub open spec fn script_attrs_of(extra: Seq<Seq<char>>) -> Seq<(Seq<char>, Seq<char>)>
    decreases extra.len(),
{
    if extra.len() == 0 {
        Seq::empty()
    } else {
        script_attrs_of(extra.drop_last()) + match split_once(extra.last(), '=') {
            Some(kv) => seq![kv],
            None => Seq::empty(),
        }
    }
}

/// The attribute pairs a script run binds from its arguments.
pub fn script_attrs(extra: &Vec<String>) -> (r: Vec<(String, String)>)
    ensures
        r@.map_values(|p: (String, String)| (p.0@, p.1@)) == script_attrs_of(seq_view(extra@)),
{
    let ghost ev = seq_view(extra@);
    let mut out: Vec<(String, String)> = Vec::new();
    let mut i: usize = 0;
    while i < extra.len()
        invariant
            i <= extra.len(),
            ev == seq_view(extra@),
            out@.map_values(|p: (String, String)| (p.0@, p.1@)) == script_attrs_of(ev.take(i as int)),
        decreases extra.len() - i,
    {
        assert(ev.take(i + 1).drop_last() =~= ev.take(i as int));
        assert(ev.take(i + 1).last() == ev[i as int]);
        let a = chars_of(extra[i].as_str());
        assert(ev[i as int] == a@);
        let ghost before = out@.map_values(|p: (String, String)| (p.0@, p.1@));
        match split_once_exec(&a, '=') {
            Some((k, v)) => {
                out.push((string_of(&k), string_of(&v)));
                assert(out@.map_values(|p: (String, String)| (p.0@, p.1@)) =~= before + seq![(k@, v@)]);
            },
            None => {
                assert(before + Seq::<(Seq<char>, Seq<char>)>::empty() =~= before);
            },
        }
        i = i + 1;
    }
    assert(ev.take(extra.len() as int) =~= ev);
    out
}

} // verus!

//! The wall-clock segment trigger: hour ranges mapped to commands, the
//! first range holding the current hour wins, and a command is dispatched
//! only when the winning segment changes.

use vstd::prelude::*;
use crate::text::{chars_of, concat, contains_seq, contains_str, decimal, dec_str, parse_u32, parses_u32, signed_digits, split_once, split_once_exec, string_of};

verus! {

/// Hour `h` lies in `lo..=hi`; when `lo > hi` the range wraps past
/// midnight.
pub open spec fn in_range(lo: u32, hi: u32, h: u32) -> bool {
    if lo <= hi { lo <= h && h <= hi } else { h >= lo || h <= hi }
}

/// The command of the first segment holding hour `h`.
pub open spec fn segment_for(segs: Seq<(u32, u32, Seq<char>)>, h: u32) -> Option<Seq<char>>
    decreases segs.len(),
{
    if segs.len() == 0 {
        None
    } else if in_range(segs[0].0, segs[0].1, h) {
        Some(segs[0].2)
    } else {
        segment_for(segs.drop_first(), h)
    }
}

/// First match wins over the segments; a segment with `lo > hi` spans
/// midnight (`20-4` covers 20:00 through 04:59).
pub fn match_segment<'a>(segs: &'a [(u32, u32, String)], hour: u32) -> (r: Option<&'a str>)
    ensures
        match r {
            Some(c) => segment_for(segs@.map_values(|s: (u32, u32, String)| (s.0, s.1, s.2@)), hour) == Some(c@),
            None => segment_for(segs@.map_values(|s: (u32, u32, String)| (s.0, s.1, s.2@)), hour) is None,
        },
{
    let ghost sv = segs@.map_values(|s: (u32, u32, String)| (s.0, s.1, s.2@));
    let mut i: usize = 0;
    assert(sv.subrange(0, sv.len() as int) =~= sv);
    while i < segs.len()
        invariant
            i <= segs.len(),
            sv == segs@.map_values(|s: (u32, u32, String)| (s.0, s.1, s.2@)),
            segment_for(sv.subrange(i as int, sv.len() as int), hour) == segment_for(sv, hour),
        decreases segs.len() - i,
    {
        let ghost rest = sv.subrange(i as int, sv.len() as int);
        assert(rest.drop_first() =~= sv.subrange(i + 1, sv.len() as int));
        let (lo, hi) = (segs[i].0, segs[i].1);
        let in_r = if lo <= hi { hour >= lo && hour <= hi } else { hour >= lo || hour <= hi };
        if in_r {
            return Some(segs[i].2.as_str());
        }
        i = i + 1;
    }
    None
}

/// The command a clock tick dispatches: the winning segment's command,
/// when it differs from the one dispatched last.
pub open spec fn tick_dispatch(last: Option<Seq<char>>, segs: Seq<(u32, u32, Seq<char>)>, h: u32) -> Option<Seq<char>> {
    match segment_for(segs, h) {
        Some(c) => if last == Some(c) { None } else { Some(c) },
        None => None,
    }
}

/// One poll of the clock: the command to dispatch now, if any. The
/// caller records a dispatched command as the new `last`.
pub fn clock_tick(last: &Option<String>, segs: &[(u32, u32, String)], hour: u32) -> (r: Option<String>)
    ensures
        match r {
            Some(c) => tick_dispatch(
                match last { Some(l) => Some(l@), None => None },
                segs@.map_values(|s: (u32, u32, String)| (s.0, s.1, s.2@)),
                hour,
            ) == Some(c@),
            None => tick_dispatch(
                match last { Some(l) => Some(l@), None => None },
                segs@.map_values(|s: (u32, u32, String)| (s.0, s.1, s.2@)),
                hour,
            ) is None,
        },
{
    match match_segment(segs, hour) {
        Some(c) => {
            let same = match last {
                Some(l) => crate::text::eq(&chars_of(l.as_str()), &chars_of(c)),
                None => false,
            };
            if same { None } else { Some(string_of(&chars_of(c))) }
        },
        None => None,
    }
}

/// The refusal of an address without `::`.
pub open spec fn short_form_message(sub: Seq<char>, addr: Seq<char>) -> Seq<char> {
    sub + " : dispatch address '"@ + addr
        + "' is a short-form address. The CLI requires the fully-qualified form Domain::Aggregate.Command (commands, PascalCase) or Domain::Aggregate.query_name (queries, snake_case). Example: 'Tools::Tools.Bash', 'Discipline::Macrophage.Run'."@
}

/// Every dispatch address typed at a cadence command line must be
/// fully qualified (`Domain::Aggregate.Command`): `None` when it is, the
/// refusal otherwise.
pub fn fqn_address_error(subcommand: &str, address: &str) -> (r: Option<String>)
    ensures
        contains_seq(address@, "::"@) ==> r is None,
        !contains_seq(address@, "::"@) ==> (r matches Some(m) && m@ == short_form_message(subcommand@, address@)),
{
    let a = chars_of(address);
    if contains_str(&a, "::") {
        None
    } else {
        let m = concat(&concat(&chars_of(subcommand), &chars_of(" : dispatch address '")), &a);
        let m = concat(&m, &chars_of("' is a short-form address. The CLI requires the fully-qualified form Domain::Aggregate.Command (commands, PascalCase) or Domain::Aggregate.query_name (queries, snake_case). Example: 'Tools::Tools.Bash', 'Discipline::Macrophage.Run'."));
        Some(string_of(&m))
    }
}

/// The parse of `--segment <lo>-<hi>:<Domain::Aggregate.Command>`, or the
/// message it is refused with, checked in this order: the `:`, the `-`,
/// each hour as a `u32`, the hours within `0..=23`, the `::` of the
/// address.
pub open spec fn segment_spec(spec: Seq<char>) -> Result<(u32, u32, Seq<char>), Seq<char>> {
    match split_once(spec, ':') {
        None => Err("clock : bad --segment '"@ + spec + "' (expected <lo>-<hi>:<Cmd>)"@),
        Some((range, cmd)) => match split_once(range, '-') {
            None => Err("clock : bad hour-range '"@ + range + "' (expected <lo>-<hi>)"@),
            Some((lo_s, hi_s)) => if !parses_u32(lo_s) {
                Err("clock : bad lo hour '"@ + lo_s + "'"@)
            } else if !parses_u32(hi_s) {
                Err("clock : bad hi hour '"@ + hi_s + "'"@)
            } else {
                let lo = decimal(signed_digits(lo_s).1);
                let hi = decimal(signed_digits(hi_s).1);
                if lo > 23 || hi > 23 {
                    Err("clock : hours must be 0..=23 (got "@ + dec_str(lo as nat) + "-"@ + dec_str(hi as nat) + ")"@)
                } else if !contains_seq(cmd, "::"@) {
                    Err(short_form_message("clock"@, cmd))
                } else {
                    Ok((lo as u32, hi as u32, cmd))
                }
            },
        },
    }
}

/// Parses one `--segment` value.
pub fn parse_segment(spec: &str) -> (r: Result<(u32, u32, String), String>)
    ensures
        match r {
            Ok(s) => segment_spec(spec@) == Ok::<(u32, u32, Seq<char>), Seq<char>>((s.0, s.1, s.2@)),
            Err(m) => segment_spec(spec@) == Err::<(u32, u32, Seq<char>), Seq<char>>(m@),
        },
{
    let sv = chars_of(spec);
    let (range, cmd) = match split_once_exec(&sv, ':') {
        Some(p) => p,
        None => {
            let m = concat(&concat(&chars_of("clock : bad --segment '"), &sv), &chars_of("' (expected <lo>-<hi>:<Cmd>)"));
            return Err(string_of(&m));
        },
    };
    let (lo_s, hi_s) = match split_once_exec(&range, '-') {
        Some(p) => p,
        None => {
            let m = concat(&concat(&chars_of("clock : bad hour-range '"), &range), &chars_of("' (expected <lo>-<hi>)"));
            return Err(string_of(&m));
        },
    };
    let lo = match parse_u32(&lo_s) {
        Some(v) => v,
        None => {
            let m = concat(&concat(&chars_of("clock : bad lo hour '"), &lo_s), &chars_of("'"));
            return Err(string_of(&m));
        },
    };
    let hi = match parse_u32(&hi_s) {
        Some(v) => v,
        None => {
            let m = concat(&concat(&chars_of("clock : bad hi hour '"), &hi_s), &chars_of("'"));
            return Err(string_of(&m));
        },
    };
    if lo > 23 || hi > 23 {
        let a = concat(&chars_of("clock : hours must be 0..=23 (got "), &crate::text::u64_chars(lo as u64));
        let b = concat(&concat(&a, &chars_of("-")), &crate::text::u64_chars(hi as u64));
        return Err(string_of(&concat(&b, &chars_of(")"))));
    }
    let cmd_s = string_of(&cmd);
    match fqn_address_error("clock", cmd_s.as_str()) {
        Some(m) => Err(m),
        None => Ok((lo, hi, cmd_s)),
    }
}

/// A segment's command is dispatched once: after a tick dispatched `c`,
/// every later tick at an hour whose winning segment is still `c`
/// dispatches nothing, and a tick whose winning segment changed
/// dispatches the new command.
pub proof fn law_dispatch_once_per_segment(
    last: Option<Seq<char>>,
    segs: Seq<(u32, u32, Seq<char>)>,
    h: u32,
    h2: u32,
    c: Seq<char>,
    d: Seq<char>,
)
    requires
        tick_dispatch(last, segs, h) == Some(c),
    ensures
        segment_for(segs, h2) == Some(c) ==> tick_dispatch(Some(c), segs, h2) is None,
        segment_for(segs, h2) == Some(d) && d != c ==> tick_dispatch(Some(c), segs, h2) == Some(d),
{
}

} // verus!

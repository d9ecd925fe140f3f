//! The boot's closing summary: counts, daemon statuses, the body line
//! and, for Miette, the starred signature.

use vstd::prelude::*;
use crate::run_boot::classify::Classification;
use crate::text::{append, chars_of, dec_str, eq_str, join_exec, join_with, string_of, u64_chars, views};

verus! {

/// How many of each kind of organ the corpus holds.
pub struct OrganCounts {
    pub organs: usize,
    pub aggregates: usize,
    pub nerves: usize,
    pub vows: usize,
    pub capabilities: usize,
}

/// One daemon's name and status word.
pub struct DaemonStatus {
    pub name: String,
    pub status: String,
}

/// What the boot prints at its end.
pub struct Vitals {
    pub being: String,
    pub elapsed_secs: u64,
    pub counts: OrganCounts,
    pub classification: Classification,
    pub daemons: Vec<DaemonStatus>,
    pub info_dir: String,
    /// Bytes of the system prompt just rendered; 0 when that step was
    /// skipped.
    pub prompt_bytes: usize,
}

/// The latest body fields read from the stores: mood, fatigue, pulses
/// since sleep, consciousness state and last wake (`—` when unknown).
pub struct BodyLine {
    pub mood: String,
    pub fatigue: String,
    pub pulses: String,
    pub state: String,
    pub last_wake: String,
}

/// The status of the first daemon named `name`, `—` when none is.
pub open spec fn status_of(ds: Seq<DaemonStatus>, name: Seq<char>) -> Seq<char>
    decreases ds.len(),
{
    if ds.len() == 0 {
        "—"@
    } else if ds[0].name@ == name {
        ds[0].status@
    } else {
        status_of(ds.drop_first(), name)
    }
}

/// The counts and continuity lines.
pub open spec fn counts_text(v: Vitals) -> Seq<char> {
    "✓ "@ + v.being@ + " booted in "@ + dec_str(v.elapsed_secs as nat) + "s\n"@
        + "  "@ + dec_str(v.counts.organs as nat) + " organs · "@ + dec_str(v.counts.aggregates as nat)
        + " aggregates · "@ + dec_str(v.counts.nerves as nat) + " nerves · "@ + dec_str(v.counts.vows as nat)
        + " vows · "@ + dec_str(v.counts.capabilities as nat) + " capabilities\n"@
        + "  session continuity: "@ + dec_str(v.classification.linked@.len()) + " linked, "@
        + dec_str(v.classification.private_@.len()) + " private, "@
        + dec_str(v.classification.unclassified@.len()) + " unclassified\n"@
}

/// The daemon lines.
pub open spec fn daemons_text(ds: Seq<DaemonStatus>) -> Seq<char> {
    "  mindstream: "@ + status_of(ds, "mindstream"@) + "\n"@
        + "  heart: "@ + status_of(ds, "heart"@) + " · breath: "@ + status_of(ds, "breath"@)
        + " · circadian: "@ + status_of(ds, "circadian"@) + "\n"@
        + "  ultradian: "@ + status_of(ds, "ultradian"@) + " · sleep_cycle: "@ + status_of(ds, "sleep_cycle"@)
        + "\n"@
}

/// The prompt size (when one was rendered), the body line and the
/// pointer to the full report.
pub open spec fn body_text(v: Vitals, b: BodyLine) -> Seq<char> {
    (if v.prompt_bytes > 0 {
        "  system_prompt.md: "@ + dec_str(v.prompt_bytes as nat) + " bytes\n"@
    } else {
        Seq::empty()
    }) + "  feeling: "@ + b.mood@ + " · "@ + b.fatigue@ + " · pulses since sleep: "@ + b.pulses@
        + " · state: "@ + b.state@ + " · last wake: "@ + b.last_wake@ + "\n"@
        + "  full status report: storehouse run capabilities/status/status.bluebook\n"@
}

/// The warning on unclassified stores, and Miette's signature.
pub open spec fn closing_text(v: Vitals) -> Seq<char> {
    (if v.classification.unclassified@.len() > 0 {
        "  ⚠ unclassified stores: "@ + join_with(v.classification.unclassified@.map_values(|s: String| s@), " "@)
            + "\n"@
    } else {
        Seq::empty()
    }) + if v.being@ == "Miette"@ {
        "\n    ·   ✦   ·\n   ❀  miette  ❀\n    ·   ✦   ·\n~ follow the crumbs ~\n"@
    } else {
        Seq::empty()
    }
}

/// Everything the boot prints at its end, line by line.
pub open spec fn vitals_text(v: Vitals, b: BodyLine) -> Seq<char> {
    counts_text(v) + daemons_text(v.daemons@) + body_text(v, b) + closing_text(v)
}

fn status_exec(ds: &Vec<DaemonStatus>, name: &str) -> (r: Vec<char>)
    ensures
        r@ == status_of(ds@, name@),
{
    let mut i: usize = 0;
    assert(ds@.subrange(0, ds@.len() as int) =~= ds@);
    while i < ds.len()
        invariant
            i <= ds.len(),
            status_of(ds@.subrange(i as int, ds@.len() as int), name@) == status_of(ds@, name@),
        decreases ds.len() - i,
    {
        let ghost rest = ds@.subrange(i as int, ds@.len() as int);
        assert(rest.drop_first() =~= ds@.subrange(i + 1, ds@.len() as int));
        assert(rest[0] == ds@[i as int]);
        if eq_str(&chars_of(name), ds[i].name.as_str()) {
            return chars_of(ds[i].status.as_str());
        }
        i = i + 1;
    }
    assert(ds@.subrange(i as int, ds@.len() as int) =~= Seq::<DaemonStatus>::empty());
    chars_of("—")
}

fn push_str(out: &mut Vec<char>, s: &str)
    ensures
        final(out)@ == old(out)@ + s@,
{
    append(out, &chars_of(s));
}

fn push_num(out: &mut Vec<char>, n: u64)
    ensures
        final(out)@ == old(out)@ + dec_str(n as nat),
{
    append(out, &u64_chars(n));
}

fn counts_exec(v: &Vitals) -> (r: Vec<char>)
    ensures
        r@ == counts_text(*v),
{
    let mut out: Vec<char> = Vec::new();
    push_str(&mut out, "✓ ");
    push_str(&mut out, v.being.as_str());
    push_str(&mut out, " booted in ");
    push_num(&mut out, v.elapsed_secs);
    push_str(&mut out, "s\n");
    push_str(&mut out, "  ");
    push_num(&mut out, v.counts.organs as u64);
    push_str(&mut out, " organs · ");
    push_num(&mut out, v.counts.aggregates as u64);
    push_str(&mut out, " aggregates · ");
    push_num(&mut out, v.counts.nerves as u64);
    push_str(&mut out, " nerves · ");
    push_num(&mut out, v.counts.vows as u64);
    push_str(&mut out, " vows · ");
    push_num(&mut out, v.counts.capabilities as u64);
    push_str(&mut out, " capabilities\n");
    push_str(&mut out, "  session continuity: ");
    push_num(&mut out, v.classification.linked.len() as u64);
    push_str(&mut out, " linked, ");
    push_num(&mut out, v.classification.private_.len() as u64);
    push_str(&mut out, " private, ");
    push_num(&mut out, v.classification.unclassified.len() as u64);
    push_str(&mut out, " unclassified\n");
    assert(out@ =~= counts_text(*v));
    out
}

fn daemons_exec(ds: &Vec<DaemonStatus>) -> (r: Vec<char>)
    ensures
        r@ == daemons_text(ds@),
{
    let mut out: Vec<char> = Vec::new();
    push_str(&mut out, "  mindstream: ");
    append(&mut out, &status_exec(ds, "mindstream"));
    push_str(&mut out, "\n");
    push_str(&mut out, "  heart: ");
    append(&mut out, &status_exec(ds, "heart"));
    push_str(&mut out, " · breath: ");
    append(&mut out, &status_exec(ds, "breath"));
    push_str(&mut out, " · circadian: ");
    append(&mut out, &status_exec(ds, "circadian"));
    push_str(&mut out, "\n");
    push_str(&mut out, "  ultradian: ");
    append(&mut out, &status_exec(ds, "ultradian"));
    push_str(&mut out, " · sleep_cycle: ");
    append(&mut out, &status_exec(ds, "sleep_cycle"));
    push_str(&mut out, "\n");
    assert(out@ =~= daemons_text(ds@));
    out
}

fn body_exec(v: &Vitals, b: &BodyLine) -> (r: Vec<char>)
    ensures
        r@ == body_text(*v, *b),
{
    let mut out: Vec<char> = Vec::new();
    if v.prompt_bytes > 0 {
        push_str(&mut out, "  system_prompt.md: ");
        push_num(&mut out, v.prompt_bytes as u64);
        push_str(&mut out, " bytes\n");
    }
    push_str(&mut out, "  feeling: ");
    push_str(&mut out, b.mood.as_str());
    push_str(&mut out, " · ");
    push_str(&mut out, b.fatigue.as_str());
    push_str(&mut out, " · pulses since sleep: ");
    push_str(&mut out, b.pulses.as_str());
    push_str(&mut out, " · state: ");
    push_str(&mut out, b.state.as_str());
    push_str(&mut out, " · last wake: ");
    push_str(&mut out, b.last_wake.as_str());
    push_str(&mut out, "\n");
    push_str(&mut out, "  full status report: storehouse run capabilities/status/status.bluebook\n");
    assert(out@ =~= body_text(*v, *b));
    out
}

fn closing_exec(v: &Vitals) -> (r: Vec<char>)
    ensures
        r@ == closing_text(*v),
{
    let mut out: Vec<char> = Vec::new();
    let un = &v.classification.unclassified;
    if un.len() > 0 {
        let mut parts: Vec<Vec<char>> = Vec::new();
        let mut i: usize = 0;
        while i < un.len()
            invariant
                i <= un.len(),
                views(parts@) == un@.take(i as int).map_values(|s: String| s@),
            decreases un.len() - i,
        {
            let ghost before = views(parts@);
            parts.push(chars_of(un[i].as_str()));
            assert(views(parts@) =~= before.push(un@[i as int]@));
            assert(un@.take(i + 1) =~= un@.take(i as int).push(un@[i as int]));
            assert(views(parts@) =~= un@.take(i + 1).map_values(|s: String| s@));
            i = i + 1;
        }
        assert(un@.take(un.len() as int) =~= un@);
        push_str(&mut out, "  ⚠ unclassified stores: ");
        append(&mut out, &join_exec(&parts, " "));
        push_str(&mut out, "\n");
    }
    if eq_str(&chars_of(v.being.as_str()), "Miette") {
        push_str(&mut out, "\n    ·   ✦   ·\n   ❀  miette  ❀\n    ·   ✦   ·\n~ follow the crumbs ~\n");
    }
    assert(out@ =~= closing_text(*v));
    out
}

/// The text the boot prints at its end, from its vitals and the latest
/// body fields.
pub fn vitals_report(v: &Vitals, b: &BodyLine) -> (r: String)
    ensures
        r@ == vitals_text(*v, *b),
{
    let mut out = counts_exec(v);
    append(&mut out, &daemons_exec(&v.daemons));
    append(&mut out, &body_exec(v, b));
    append(&mut out, &closing_exec(v));
    assert(out@ =~= vitals_text(*v, *b));
    string_of(&out)
}

} // verus!

//! The overmind Procfile and `.overmind.env`, rendered from the
//! established Mindstream and MindstreamMember records.

use vstd::prelude::*;
use crate::ir::{group_views, seq_view};
use crate::run_boot::system_prompt::{lookup, lookup_exec, quoted_after, text_after};
use crate::text::{chars_of, concat, eq_str, i64_value, join_exec, join_with, parse_i64, parses_i64, string_of, views};

verus! {

broadcast use group_views;

/// A stored record: each field with its value as bare text (a value
/// object stands for its `value` member).
pub struct Record {
    pub fields: Vec<(String, String)>,
}

/// The bare text of a field, empty when absent.
pub open spec fn bare(r: Record, key: Seq<char>) -> Seq<char> {
    match lookup(seq_view(r.fields@), key) {
        Some(v) => v,
        None => Seq::empty(),
    }
}

pub fn bare_exec(r: &Record, key: &str) -> (v: Vec<char>)
    ensures
        v@ == bare(*r, key@),
{
    match lookup_exec(&r.fields, key) {
        Some(v) => v,
        None => Vec::new(),
    }
}

/// `key: "..."` inside a value object's source text.
pub open spec fn quoted_field(src: Seq<char>, key: Seq<char>) -> Option<Seq<char>> {
    text_after(src, key + ": \""@)
}

pub fn quoted_field_exec(src: &Vec<char>, key: &str) -> (r: Option<Vec<char>>)
    ensures
        match r {
            Some(v) => quoted_field(src@, key@) == Some(v@),
            None => quoted_field(src@, key@) is None,
        },
{
    let marker = concat(&chars_of(key), &chars_of(": \""));
    match quoted_after(string_of(src).as_str(), string_of(&marker).as_str()) {
        Some(t) => Some(chars_of(t.as_str())),
        None => None,
    }
}

/// Both overmind artifacts.
pub struct ProcfileArtifacts {
    pub procfile: String,
    pub env: String,
}

/// One member as `(order, name, command line, lifespan kind)`: the order
/// parsed as an `i64` (`i64::MAX` when it is not one), the command's
/// `line` (or its whole text), the lifespan's `kind` (or nothing).
pub open spec fn member_row(m: Record) -> (int, Seq<char>, Seq<char>, Seq<char>) {
    let order = if parses_i64(bare(m, "order"@)) { i64_value(bare(m, "order"@)) } else { 0x7fff_ffff_ffff_ffffint };
    let cmd = bare(m, "command"@);
    let line = match quoted_field(cmd, "line"@) { Some(l) => l, None => cmd };
    let kind = match quoted_field(bare(m, "lifespan"@), "kind"@) { Some(k) => k, None => Seq::empty() };
    (order, bare(m, "name"@), line, kind)
}

/// Where a stable insertion by order puts `x`.
pub open spec fn member_pos(s: Seq<(int, Seq<char>, Seq<char>, Seq<char>)>, x: (int, Seq<char>, Seq<char>, Seq<char>), j: int) -> int
    decreases s.len() - j,
{
    if j < 0 || j >= s.len() {
        s.len() as int
    } else if x.0 < s[j].0 {
        j
    } else {
        member_pos(s, x, j + 1)
    }
}

pub proof fn lemma_member_pos(s: Seq<(int, Seq<char>, Seq<char>, Seq<char>)>, x: (int, Seq<char>, Seq<char>, Seq<char>), j: int)
    requires
        0 <= j <= s.len(),
    ensures
        j <= member_pos(s, x, j) <= s.len(),
    decreases s.len() - j,
{
    if j < s.len() && !(x.0 < s[j].0) {
        lemma_member_pos(s, x, j + 1);
    }
}

/// The member rows, stably sorted by order.
pub open spec fn sorted_members(ms: Seq<Record>) -> Seq<(int, Seq<char>, Seq<char>, Seq<char>)>
    decreases ms.len(),
{
    if ms.len() == 0 {
        Seq::empty()
    } else {
        let t = sorted_members(ms.drop_last());
        t.insert(member_pos(t, member_row(ms.last()), 0), member_row(ms.last()))
    }
}

pub open spec fn procfile_head() -> Seq<char> {
    "# Generated artifact — do not hand-edit. Source of truth :\n#   hecks_conception/aggregates/framework/mindstream/bluebook/mindstream.bluebook\n#   (the Mindstream + MindstreamMember types AND the BootCompleted establishment\n#   policies that seed the boot rows — fixtures→policies, 2026-07-26).\n# Regenerate : storehouse project procfile <conception-root> --output-dir <deploy-dir>\n# One line per ESTABLISHED MindstreamMember (name: command, verbatim, in :order) ;\n# one_shot members flow into OVERMIND_CAN_DIE in the sibling .overmind.env.\n"@
}

pub open spec fn env_head() -> Seq<char> {
    "# Generated artifact — do not hand-edit. Source of truth :\n#   hecks_conception/aggregates/framework/mindstream/bluebook/mindstream.bluebook\n#   (the BootCompleted establishment policies — fixtures→policies, 2026-07-26).\n# Regenerate : storehouse project procfile <conception-root> --output-dir <deploy-dir>\n# OVERMIND_CAN_DIE lists every MindstreamMember whose lifespan.kind == \"one_shot\" ;\n# the framework env (HECKS_DAEMON, HECKS_EVENT_SOURCING) is what the boot pipeline needs ;\n# HECKS_CONCEPTION_DIR locates the conception (the engine now lives outside the tree) ;\n# HECKS_ADDITIONAL_CORPUS_ROOTS carries the being-repo bluebook roots whose\n# BootCompleted policies must register in the completion corpus.\n\n"@
}

/// `name: line` for each row.
pub open spec fn procfile_lines(rows: Seq<(int, Seq<char>, Seq<char>, Seq<char>)>) -> Seq<char>
    decreases rows.len(),
{
    if rows.len() == 0 { Seq::empty() } else { procfile_lines(rows.drop_last()) + rows.last().1 + ": "@ + rows.last().2 + "\n"@ }
}

/// The names of the `one_shot` rows, in order.
pub open spec fn one_shot_names(rows: Seq<(int, Seq<char>, Seq<char>, Seq<char>)>) -> Seq<Seq<char>>
    decreases rows.len(),
{
    if rows.len() == 0 {
        Seq::empty()
    } else {
        one_shot_names(rows.drop_last()) + if rows.last().3 == "one_shot"@ { seq![rows.last().1] } else { Seq::empty() }
    }
}

/// The names of the `one_shot` rows joined with commas.
pub open spec fn can_die(rows: Seq<(int, Seq<char>, Seq<char>, Seq<char>)>) -> Seq<char> {
    join_with(one_shot_names(rows), ","@)
}

/// The env file for a stream and its sorted member rows.
pub open spec fn env_text(stream: Record, rows: Seq<(int, Seq<char>, Seq<char>, Seq<char>)>) -> Seq<char> {
    let conception = match quoted_field(bare(stream, "directory"@), "path"@) { Some(p) => p, None => Seq::empty() };
    let roots = match quoted_field(bare(stream, "corpus_roots"@), "value"@) { Some(v) => v, None => bare(stream, "corpus_roots"@) };
    env_head() + "OVERMIND_CAN_DIE="@ + can_die(rows) + "\n"@ + "HECKS_DAEMON=1\n"@ + "HECKS_EVENT_SOURCING=1\n"@
        + "HECKS_CONCEPTION_DIR="@ + conception + "\n"@
        + if roots.len() > 0 && roots[0] != '{' { "HECKS_ADDITIONAL_CORPUS_ROOTS="@ + roots + "\n"@ } else { Seq::empty() }
}

fn member_row_exec(m: &Record) -> (r: (i64, Vec<char>, Vec<char>, Vec<char>))
    ensures
        (r.0 as int, r.1@, r.2@, r.3@) == member_row(*m),
{
    let o = bare_exec(m, "order");
    let order = match parse_i64(&o) {
        Some(v) => v,
        None => i64::MAX,
    };
    let cmd = bare_exec(m, "command");
    let line = match quoted_field_exec(&cmd, "line") {
        Some(l) => l,
        None => cmd.clone(),
    };
    let kind = match quoted_field_exec(&bare_exec(m, "lifespan"), "kind") {
        Some(k) => k,
        None => Vec::new(),
    };
    (order, bare_exec(m, "name"), line, kind)
}

pub open spec fn rows_view(v: Seq<(i64, Vec<char>, Vec<char>, Vec<char>)>) -> Seq<(int, Seq<char>, Seq<char>, Seq<char>)> {
    v.map_values(|r: (i64, Vec<char>, Vec<char>, Vec<char>)| (r.0 as int, r.1@, r.2@, r.3@))
}

fn sort_members_exec(members: &Vec<Record>) -> (r: Vec<(i64, Vec<char>, Vec<char>, Vec<char>)>)
    ensures
        rows_view(r@) == sorted_members(members@),
{
    let mut out: Vec<(i64, Vec<char>, Vec<char>, Vec<char>)> = Vec::new();
    let mut i: usize = 0;
    assert(members@.take(0) =~= Seq::<Record>::empty());
    assert(rows_view(out@) =~= Seq::<(int, Seq<char>, Seq<char>, Seq<char>)>::empty());
    while i < members.len()
        invariant
            i <= members.len(),
            rows_view(out@) == sorted_members(members@.take(i as int)),
        decreases members.len() - i,
    {
        assert(members@.take(i + 1).drop_last() =~= members@.take(i as int));
        assert(members@.take(i + 1).last() == members@[i as int]);
        let row = member_row_exec(&members[i]);
        let ghost x = (row.0 as int, row.1@, row.2@, row.3@);
        let ghost sv = rows_view(out@);
        proof { lemma_member_pos(sv, x, 0); }
        let mut j: usize = 0;
        while j < out.len() && !(row.0 < out[j].0)
            invariant
                j <= out.len(),
                sv == rows_view(out@),
                x == (row.0 as int, row.1@, row.2@, row.3@),
                member_pos(sv, x, j as int) == member_pos(sv, x, 0),
            decreases out.len() - j,
        {
            j = j + 1;
        }
        out.insert(j, row);
        assert(rows_view(out@) =~= sv.insert(j as int, x));
        i = i + 1;
    }
    assert(members@.take(members.len() as int) =~= members@);
    out
}

/// Renders both artifacts from the established records: the Procfile
/// lists every member in `order`, and the env names the `one_shot`
/// members and the stream's conception and corpus roots. `None` when no
/// stream or no member is established.
pub fn render(streams: &Vec<Record>, members: &Vec<Record>) -> (r: Option<ProcfileArtifacts>)
    ensures
        (streams.len() == 0 || members.len() == 0) <==> r is None,
        r matches Some(a) ==> a.procfile@ == procfile_head() + procfile_lines(sorted_members(members@))
            && a.env@ == env_text(streams@[0], sorted_members(members@)),
{
    if streams.len() == 0 || members.len() == 0 {
        return None;
    }
    let stream = &streams[0];
    let rows = sort_members_exec(members);
    let ghost rv = rows_view(rows@);
    let mut procfile = chars_of("# Generated artifact — do not hand-edit. Source of truth :\n#   hecks_conception/aggregates/framework/mindstream/bluebook/mindstream.bluebook\n#   (the Mindstream + MindstreamMember types AND the BootCompleted establishment\n#   policies that seed the boot rows — fixtures→policies, 2026-07-26).\n# Regenerate : storehouse project procfile <conception-root> --output-dir <deploy-dir>\n# One line per ESTABLISHED MindstreamMember (name: command, verbatim, in :order) ;\n# one_shot members flow into OVERMIND_CAN_DIE in the sibling .overmind.env.\n");
    let mut lines: Vec<char> = Vec::new();
    let mut names: Vec<Vec<char>> = Vec::new();
    let mut i: usize = 0;
    assert(rv.take(0) =~= Seq::<(int, Seq<char>, Seq<char>, Seq<char>)>::empty());
    while i < rows.len()
        invariant
            i <= rows.len(),
            rv == rows_view(rows@),
            lines@ == procfile_lines(rv.take(i as int)),
            views(names@) == one_shot_names(rv.take(i as int)),
        decreases rows.len() - i,
    {
        let ghost t = rv.take(i + 1);
        assert(t.drop_last() =~= rv.take(i as int));
        assert(t.last() == rv[i as int]);
        let r = &rows[i];
        lines = concat(&concat(&concat(&concat(&lines, &r.1), &chars_of(": ")), &r.2), &chars_of("\n"));
        let ghost b = views(names@);
        if eq_str(&r.3, "one_shot") {
            names.push(r.1.clone());
            assert(views(names@) =~= b + seq![r.1@]);
        } else {
            assert(views(names@) =~= b + Seq::<Seq<char>>::empty());
        }
        i = i + 1;
    }
    assert(rv.take(rows.len() as int) =~= rv);
    procfile = concat(&procfile, &lines);
    let mut env = chars_of("# Generated artifact — do not hand-edit. Source of truth :\n#   hecks_conception/aggregates/framework/mindstream/bluebook/mindstream.bluebook\n#   (the BootCompleted establishment policies — fixtures→policies, 2026-07-26).\n# Regenerate : storehouse project procfile <conception-root> --output-dir <deploy-dir>\n# OVERMIND_CAN_DIE lists every MindstreamMember whose lifespan.kind == \"one_shot\" ;\n# the framework env (HECKS_DAEMON, HECKS_EVENT_SOURCING) is what the boot pipeline needs ;\n# HECKS_CONCEPTION_DIR locates the conception (the engine now lives outside the tree) ;\n# HECKS_ADDITIONAL_CORPUS_ROOTS carries the being-repo bluebook roots whose\n# BootCompleted policies must register in the completion corpus.\n\n");
    env = concat(&env, &chars_of("OVERMIND_CAN_DIE="));
    env = concat(&env, &join_exec(&names, ","));
    env = concat(&env, &chars_of("\n"));
    env = concat(&env, &chars_of("HECKS_DAEMON=1\n"));
    env = concat(&env, &chars_of("HECKS_EVENT_SOURCING=1\n"));
    let conception = match quoted_field_exec(&bare_exec(stream, "directory"), "path") {
        Some(p) => p,
        None => Vec::new(),
    };
    env = concat(&env, &chars_of("HECKS_CONCEPTION_DIR="));
    env = concat(&env, &conception);
    env = concat(&env, &chars_of("\n"));
    let roots_src = bare_exec(stream, "corpus_roots");
    let roots = match quoted_field_exec(&roots_src, "value") {
        Some(v) => v,
        None => roots_src.clone(),
    };
    if roots.len() > 0 && roots[0] != '{' {
        env = concat(&env, &concat(&concat(&chars_of("HECKS_ADDITIONAL_CORPUS_ROOTS="), &roots), &chars_of("\n")));
    } else {
        assert(env@ =~= env@ + Seq::<char>::empty());
    }
    Some(ProcfileArtifacts { procfile: string_of(&procfile), env: string_of(&env) })
}

} // verus!

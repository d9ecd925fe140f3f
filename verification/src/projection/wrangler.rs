//! A Cloudflare `wrangler.toml`, rendered from the established
//! WorkerConfig record.

use vstd::prelude::*;
use crate::projection::procfile::{Record, bare, bare_exec};
use crate::text::{chars_of, concat, eq_str, string_of};

verus! {

pub open spec fn wrangler_head() -> Seq<char> {
    "# DERIVED from ../cloudflare.bluebook — the ESTABLISHED WorkerConfig\n# record — by `storehouse project wrangler`. The bluebook declares, the\n# BootCompleted establishment policy asserts the record, this artifact\n# projects from the record. Do not hand-edit — change the policy and\n# re-project.\n\n"@
}

/// `label"value"` and a newline.
pub open spec fn q_line(label: Seq<char>, v: Seq<char>) -> Seq<char> {
    label + "\""@ + v + "\"\n"@
}

pub open spec fn fields_part(rec: Record) -> Seq<char> {
    q_line("name               = "@, bare(rec, "name"@)) + q_line("main               = "@, bare(rec, "main_entrypoint"@))
        + q_line("compatibility_date = "@, bare(rec, "compatibility_date"@))
}

pub open spec fn r2_part(rec: Record) -> Seq<char> {
    let binding = bare(rec, "r2_binding"@);
    let bucket = bare(rec, "r2_bucket"@);
    if binding.len() > 0 && bucket.len() > 0 {
        "\n# heki -> R2 persistence binding. lib.rs reads this binding by\n# name to hydrate state on boot and persist every dispatch back.\n[[r2_buckets]]\n"@
            + q_line("binding     = "@, binding) + q_line("bucket_name = "@, bucket)
    } else {
        Seq::empty()
    }
}

pub open spec fn build_part(rec: Record) -> Seq<char> {
    let build = bare(rec, "build_command"@);
    if build.len() > 0 { "\n[build]\n"@ + q_line("command = "@, build) } else { Seq::empty() }
}

pub open spec fn observability_part(rec: Record) -> Seq<char> {
    "\n[observability]\n"@ + "enabled = "@ + (if bare(rec, "observability"@) == "enabled"@ { "true"@ } else { "false"@ }) + "\n"@
}

/// The artifact for one WorkerConfig record: name, entry point and
/// compatibility date; the R2 binding when both binding and bucket are
/// set; the build command when set; observability on exactly when the
/// record says `enabled`.
pub open spec fn wrangler_text(rec: Record) -> Seq<char> {
    wrangler_head() + fields_part(rec) + r2_part(rec) + build_part(rec) + observability_part(rec)
}

fn quoted_line(label: &str, value: &Vec<char>) -> (r: Vec<char>)
    ensures
        r@ == q_line(label@, value@),
{
    concat(&concat(&concat(&chars_of(label), &chars_of("\"")), value), &chars_of("\"\n"))
}

/// Renders wrangler.toml for the first established WorkerConfig record;
/// `None` when none is established.
pub fn render(recs: &Vec<Record>) -> (r: Option<String>)
    ensures
        recs.len() == 0 <==> r is None,
        r matches Some(t) ==> t@ == wrangler_text(recs@[0]),
{
    if recs.len() == 0 {
        return None;
    }
    let rec = &recs[0];
    let head = chars_of("# DERIVED from ../cloudflare.bluebook — the ESTABLISHED WorkerConfig\n# record — by `storehouse project wrangler`. The bluebook declares, the\n# BootCompleted establishment policy asserts the record, this artifact\n# projects from the record. Do not hand-edit — change the policy and\n# re-project.\n\n");
    let fields = concat(&concat(&quoted_line("name               = ", &bare_exec(rec, "name")),
        &quoted_line("main               = ", &bare_exec(rec, "main_entrypoint"))),
        &quoted_line("compatibility_date = ", &bare_exec(rec, "compatibility_date")));
    let binding = bare_exec(rec, "r2_binding");
    let bucket = bare_exec(rec, "r2_bucket");
    let r2 = if binding.len() > 0 && bucket.len() > 0 {
        let h = chars_of("\n# heki -> R2 persistence binding. lib.rs reads this binding by\n# name to hydrate state on boot and persist every dispatch back.\n[[r2_buckets]]\n");
        concat(&concat(&h, &quoted_line("binding     = ", &binding)), &quoted_line("bucket_name = ", &bucket))
    } else {
        Vec::new()
    };
    let build = bare_exec(rec, "build_command");
    let b = if build.len() > 0 {
        concat(&chars_of("\n[build]\n"), &quoted_line("command = ", &build))
    } else {
        Vec::new()
    };
    let on = if eq_str(&bare_exec(rec, "observability"), "enabled") { chars_of("true") } else { chars_of("false") };
    let obs = concat(&concat(&concat(&chars_of("\n[observability]\n"), &chars_of("enabled = ")), &on), &chars_of("\n"));
    let out = concat(&concat(&concat(&concat(&head, &fields), &r2), &b), &obs);
    Some(string_of(&out))
}

} // verus!

//! The out-of-process adapter host: what a handler's stdout says, how its
//! environment values are written, and what becomes of a delivery once
//! its handler has run.

use vstd::prelude::*;
use crate::ir::{group_views, seq_view};
use crate::parser::{source_lines, source_lines_exec};
use crate::run_boot::system_prompt::{lookup, lookup_exec};
use crate::text::{Stop, chars_of, concat, eq_str, ends_with, ends_with_str, parse_u64, slice, u64_text, split_once, split_once_exec, string_of, strip_both, strip_both_exec, trim, trim_exec, views};

verus! {

broadcast use group_views;

/// A handler's outcome: its exit branch and the `k=v` verdict lines it
/// wrote, in order.
pub struct HandlerOutcome {
    /// The handler exited 0.
    pub success: bool,
    pub verdict_pairs: Vec<(String, String)>,
}

/// The verdict pairs of the lines: blank lines and lines without `=` are
/// skipped; a line splits at its first `=`, both sides trimmed.
pub open spec fn verdict_pairs(lines: Seq<Seq<char>>) -> Seq<(Seq<char>, Seq<char>)>
    decreases lines.len(),
{
    if lines.len() == 0 {
        Seq::empty()
    } else {
        let t = trim(lines.last());
        verdict_pairs(lines.drop_last()) + if t.len() == 0 {
            Seq::empty()
        } else {
            match split_once(t, '=') {
                Some((k, v)) => seq![(trim(k), trim(v))],
                None => Seq::empty(),
            }
        }
    }
}

/// Parses the `k=v` lines of a handler's stdout.
pub fn parse_pairs(stdout: &str) -> (r: Vec<(String, String)>)
    ensures
        seq_view(r@) == verdict_pairs(source_lines(stdout@)),
{
    let lines = source_lines_exec(&chars_of(stdout));
    let ghost lv = views(lines@);
    let mut out: Vec<(String, String)> = Vec::new();
    let mut i: usize = 0;
    assert(lv.take(0) =~= Seq::<Seq<char>>::empty());
    while i < lines.len()
        invariant
            i <= lines.len(),
            lv == views(lines@),
            seq_view(out@) == verdict_pairs(lv.take(i as int)),
        decreases lines.len() - i,
    {
        assert(lv.take(i + 1).drop_last() =~= lv.take(i as int));
        assert(lv.take(i + 1).last() == lines@[i as int]@);
        let t = trim_exec(&lines[i]);
        let ghost b = seq_view(out@);
        if t.len() > 0 {
            match split_once_exec(&t, '=') {
                Some((k, v)) => {
                    out.push((string_of(&trim_exec(&k)), string_of(&trim_exec(&v))));
                    assert(seq_view(out@) =~= b + seq![(trim(k@), trim(v@))]);
                },
                None => {
                    assert(seq_view(out@) =~= b + Seq::<(Seq<char>, Seq<char>)>::empty());
                },
            }
        } else {
            assert(seq_view(out@) =~= b + Seq::<(Seq<char>, Seq<char>)>::empty());
        }
        i = i + 1;
    }
    assert(lv.take(lines.len() as int) =~= lv);
    out
}

/// A configuration value as it goes into the handler's environment: the
/// surrounding quotes the world parser keeps on string literals removed.
pub fn env_value(v: &str) -> (r: String)
    ensures
        r@ == strip_both(v@, Stop::Other('"')),
{
    string_of(&strip_both_exec(&chars_of(v), &Stop::Other('"')))
}

/// One pending delivery of an outbound event.
pub struct Delivery {
    pub delivery_id: String,
    pub adapter: String,
    pub source_id: String,
    pub payload: String,
    pub success_command: String,
    pub failure_command: String,
}

/// The text of a field, empty when absent.
pub open spec fn text_field(fields: Seq<(Seq<char>, Seq<char>)>, key: Seq<char>) -> Seq<char> {
    match lookup(fields, key) {
        Some(v) => v,
        None => Seq::empty(),
    }
}

fn text_field_exec(fields: &Vec<(String, String)>, key: &str) -> (r: String)
    ensures
        r@ == text_field(seq_view(fields@), key@),
{
    match lookup_exec(fields, key) {
        Some(v) => string_of(&v),
        None => string_of(&Vec::new()),
    }
}

/// An outbound event record (its string fields) is pending delivery.
pub fn is_pending(fields: &Vec<(String, String)>) -> (r: bool)
    ensures
        r == (text_field(seq_view(fields@), "status"@) == "pending"@),
{
    eq_str(&chars_of(text_field_exec(fields, "status").as_str()), "pending")
}

impl Delivery {
    /// The delivery an outbound event record describes.
    pub fn from_fields(fields: &Vec<(String, String)>) -> (d: Delivery)
        ensures
            d.delivery_id@ == text_field(seq_view(fields@), "delivery_id"@),
            d.adapter@ == text_field(seq_view(fields@), "adapter"@),
            d.source_id@ == text_field(seq_view(fields@), "source_id"@),
            d.payload@ == text_field(seq_view(fields@), "payload"@),
            d.success_command@ == text_field(seq_view(fields@), "success_command"@),
            d.failure_command@ == text_field(seq_view(fields@), "failure_command"@),
    {
        Delivery {
            delivery_id: text_field_exec(fields, "delivery_id"),
            adapter: text_field_exec(fields, "adapter"),
            source_id: text_field_exec(fields, "source_id"),
            payload: text_field_exec(fields, "payload"),
            success_command: text_field_exec(fields, "success_command"),
            failure_command: text_field_exec(fields, "failure_command"),
        }
    }
}

/// What the host does next about a claimed delivery.
pub enum HostAction {
    /// Dispatch `Claim` for this delivery id, before its handler runs.
    Claim(String),
    /// Dispatch `MarkFailed` with this error.
    MarkFailed(String),
    /// Dispatch `MarkDelivered`.
    MarkDelivered,
    /// Dispatch this verdict command with these attributes, in order.
    Dispatch(String, Vec<(String, String)>),
}

pub enum HostActionModel {
    Claim(Seq<char>),
    MarkFailed(Seq<char>),
    MarkDelivered,
    Dispatch(Seq<char>, Seq<(Seq<char>, Seq<char>)>),
}

impl View for HostAction {
    type V = HostActionModel;

    open spec fn view(&self) -> HostActionModel {
        match self {
            HostAction::Claim(id) => HostActionModel::Claim(id@),
            HostAction::MarkFailed(e) => HostActionModel::MarkFailed(e@),
            HostAction::MarkDelivered => HostActionModel::MarkDelivered,
            HostAction::Dispatch(c, a) => HostActionModel::Dispatch(c@, seq_view(a@)),
        }
    }
}

/// The host claims each pending delivery before it runs the handler: a
/// `Claim` of its delivery id, which only a pending delivery accepts.
pub fn claim_action(d: &Delivery) -> (r: HostAction)
    ensures
        r@ == HostActionModel::Claim(d.delivery_id@),
{
    HostAction::Claim(copy_text(&d.delivery_id))
}

/// After the claim: a refused claim (another host took the delivery) skips
/// it; an accepted one goes on to the handler and counts as acted on.
/// Returns whether to go on, and the new count.
pub fn claim_step(claimed: bool, acted: usize) -> (r: (bool, usize))
    requires
        acted < usize::MAX,
    ensures
        r.0 == claimed,
        r.1 == (if claimed { acted + 1 } else { acted as int }),
{
    if claimed {
        (true, acted + 1)
    } else {
        (false, acted)
    }
}

/// The number of deliveries a pass acts on: those whose claim was
/// accepted.
pub open spec fn acted_on(claims: Seq<bool>) -> nat
    decreases claims.len(),
{
    if claims.len() == 0 {
        0
    } else {
        acted_on(claims.drop_last()) + if claims.last() { 1nat } else { 0nat }
    }
}

/// The count a pass returns, from the claim outcomes of its deliveries in
/// order.
pub fn acted_count(claims: &Vec<bool>) -> (n: usize)
    ensures
        n == acted_on(claims@),
{
    let mut acted: usize = 0;
    let mut i: usize = 0;
    while i < claims.len()
        invariant
            i <= claims.len(),
            acted == acted_on(claims@.take(i as int)),
            acted <= i,
        decreases claims.len() - i,
    {
        assert(claims@.take(i + 1).drop_last() =~= claims@.take(i as int));
        let (_, next) = claim_step(claims[i], acted);
        acted = next;
        i = i + 1;
    }
    assert(claims@.take(claims.len() as int) =~= claims@);
    acted
}

/// A claimed delivery whose adapter has no handler fails.
pub fn no_handler(d: &Delivery) -> (r: HostAction)
    ensures
        r@ == HostActionModel::MarkFailed("no handler for adapter "@ + d.adapter@),
{
    HostAction::MarkFailed(string_of(&concat(&chars_of("no handler for adapter "), &chars_of(d.adapter.as_str()))))
}

/// What follows a handler run: a transport error fails the delivery; a
/// handler with no verdict command for its branch marks the delivery
/// delivered on success and failed otherwise; else the verdict command
/// is dispatched with the handler's pairs and the source `id`, and the
/// delivery is marked delivered.
pub open spec fn after_handler(d: Delivery, outcome: Result<HandlerOutcome, String>) -> Seq<HostActionModel> {
    match outcome {
        Err(e) => seq![HostActionModel::MarkFailed(e@)],
        Ok(r) => {
            let verdict = if r.success { d.success_command@ } else { d.failure_command@ };
            if verdict.len() == 0 {
                if r.success {
                    seq![HostActionModel::MarkDelivered]
                } else {
                    seq![HostActionModel::MarkFailed("handler failed (fire-and-forget, no failure_command)"@)]
                }
            } else {
                seq![
                    HostActionModel::Dispatch(verdict, seq_view(r.verdict_pairs@).push(("id"@, d.source_id@))),
                    HostActionModel::MarkDelivered,
                ]
            }
        },
    }
}

fn copy_text(s: &String) -> (r: String)
    ensures
        r@ == s@,
{
    string_of(&chars_of(s.as_str()))
}

/// The actions that follow a handler run, in order.
pub fn verdict_actions(d: &Delivery, outcome: &Result<HandlerOutcome, String>) -> (r: Vec<HostAction>)
    ensures
        r@.map_values(|a: HostAction| a@) == after_handler(*d, *outcome),
{
    let mut out: Vec<HostAction> = Vec::new();
    match outcome {
        Err(e) => {
            out.push(HostAction::MarkFailed(copy_text(e)));
        },
        Ok(r) => {
            let verdict = if r.success { copy_text(&d.success_command) } else { copy_text(&d.failure_command) };
            if chars_of(verdict.as_str()).len() == 0 {
                if r.success {
                    out.push(HostAction::MarkDelivered);
                } else {
                    out.push(HostAction::MarkFailed(copy_text(&"handler failed (fire-and-forget, no failure_command)".to_string())));
                }
            } else {
                let mut attrs: Vec<(String, String)> = Vec::new();
                let mut i: usize = 0;
                while i < r.verdict_pairs.len()
                    invariant
                        i <= r.verdict_pairs.len(),
                        seq_view(attrs@) == seq_view(r.verdict_pairs@).take(i as int),
                    decreases r.verdict_pairs.len() - i,
                {
                    let ghost b = seq_view(attrs@);
                    attrs.push((copy_text(&r.verdict_pairs[i].0), copy_text(&r.verdict_pairs[i].1)));
                    assert(seq_view(attrs@) =~= seq_view(r.verdict_pairs@).take(i + 1));
                    i = i + 1;
                }
                assert(seq_view(r.verdict_pairs@).take(r.verdict_pairs.len() as int) =~= seq_view(r.verdict_pairs@));
                let ghost b = seq_view(attrs@);
                attrs.push((string_of(&chars_of("id")), copy_text(&d.source_id)));
                assert(seq_view(attrs@) =~= b.push(("id"@, d.source_id@)));
                out.push(HostAction::Dispatch(verdict, attrs));
                out.push(HostAction::MarkDelivered);
            }
        },
    }
    assert(out@.map_values(|a: HostAction| a@) =~= after_handler(*d, *outcome));
    out
}


// ---------------------------------------------------------------------
// The polling period
// ---------------------------------------------------------------------

/// The number before a one-character unit `m`, when the text (trimmed)
/// takes that branch and it parses.
pub open spec fn minutes_part(s: Seq<char>) -> Option<int> {
    let t = trim(s);
    if !ends_with(t, "ms"@) && !ends_with(t, "s"@) && ends_with(t, "m"@) {
        u64_text(t.subrange(0, t.len() - 1))
    } else {
        None
    }
}

/// The period `--every` names, in milliseconds: `N` milliseconds with
/// `ms`, `N` seconds with `s` or no unit, `N` minutes with `m`; `None`
/// when the number does not parse as a `u64`.
pub open spec fn duration_ms(s: Seq<char>) -> Option<int> {
    let t = trim(s);
    if ends_with(t, "ms"@) {
        u64_text(t.subrange(0, t.len() - 2))
    } else if ends_with(t, "s"@) {
        match u64_text(t.subrange(0, t.len() - 1)) {
            Some(v) => Some(v * 1000),
            None => None,
        }
    } else if ends_with(t, "m"@) {
        match u64_text(t.subrange(0, t.len() - 1)) {
            Some(v) => Some(v * 60 * 1000),
            None => None,
        }
    } else {
        match u64_text(t) {
            Some(v) => Some(v * 1000),
            None => None,
        }
    }
}

/// Reads a polling period (`1s`, `500ms`, `2m`, or bare seconds) as
/// milliseconds. A minute count whose seconds overflow `u64` is left out.
pub fn parse_duration(s: &str) -> (r: Option<u128>)
    requires
        minutes_part(s@) matches Some(v) ==> v * 60 <= u64::MAX,
    ensures
        match r {
            Some(ms) => duration_ms(s@) == Some(ms as int),
            None => duration_ms(s@) is None,
        },
{
    let t = trim_exec(&chars_of(s));
    proof {
        reveal_strlit("ms");
        reveal_strlit("s");
        reveal_strlit("m");
    }
    let n = t.len();
    if ends_with_str(&t, "ms") {
        return match parse_u64(&slice(&t, 0, n - 2)) {
            Some(v) => Some(v as u128),
            None => None,
        };
    }
    if ends_with_str(&t, "s") {
        return match parse_u64(&slice(&t, 0, n - 1)) {
            Some(v) => Some(v as u128 * 1000),
            None => None,
        };
    }
    if ends_with_str(&t, "m") {
        return match parse_u64(&slice(&t, 0, n - 1)) {
            Some(v) => Some(v as u128 * 60 * 1000),
            None => None,
        };
    }
    match parse_u64(&t) {
        Some(v) => Some(v as u128 * 1000),
        None => None,
    }
}

} // verus!

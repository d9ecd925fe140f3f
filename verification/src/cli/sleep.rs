//! The streaming sleep watch: each poll of the body's stores becomes the
//! lines that changed since the last poll and the decision to keep
//! watching, to report the wake, or to give up.

use vstd::prelude::*;
use crate::ir::{group_views, opt_view, seq_view};
use crate::text::{chars_of, concat, dec_str, eq, eq_str, i64_chars, int_str, pad_left, pad_left_exec, pad_right, pad_right_exec, slice, string_of, u64_chars};

verus! {

broadcast use group_views;

// ---------------------------------------------------------------------
// Formatting helpers
// ---------------------------------------------------------------------

/// `{:02}` of a count.
pub open spec fn two_digits(n: nat) -> Seq<char> {
    pad_left(dec_str(n), 2, '0')
}

/// `mm:ss`, or `hh:mm:ss` once an hour has passed.
pub open spec fn fmt_elapsed(secs: nat) -> Seq<char> {
    let h = secs / 3600;
    let m = (secs % 3600) / 60;
    let s = secs % 60;
    if h > 0 {
        two_digits(h) + ":"@ + two_digits(m) + ":"@ + two_digits(s)
    } else {
        two_digits(m) + ":"@ + two_digits(s)
    }
}

fn two_digits_exec(n: u64) -> (r: Vec<char>)
    ensures
        r@ == two_digits(n as nat),
{
    pad_left_exec(&u64_chars(n), 2, '0')
}

/// Elapsed seconds as `mm:ss`, or `hh:mm:ss` past the hour.
pub fn sleep_fmt_elapsed(secs: u64) -> (r: String)
    ensures
        r@ == fmt_elapsed(secs as nat),
{
    proof { reveal_strlit(":"); }
    let h = secs / 3600;
    let m = (secs % 3600) / 60;
    let s = secs % 60;
    let colon = chars_of(":");
    let mut out = if h > 0 {
        let a = concat(&two_digits_exec(h), &colon);
        concat(&a, &two_digits_exec(m))
    } else {
        two_digits_exec(m)
    };
    out = concat(&out, &colon);
    out = concat(&out, &two_digits_exec(s));
    string_of(&out)
}

/// At most `max` characters, with `…` marking a cut.
pub open spec fn truncate(s: Seq<char>, max: nat) -> Seq<char> {
    if s.len() <= max { s } else { s.subrange(0, max as int).push('…') }
}

fn truncate_chars(s: &Vec<char>, max: usize) -> (r: Vec<char>)
    ensures
        r@ == truncate(s@, max as nat),
{
    if s.len() <= max {
        s.clone()
    } else {
        let mut r = slice(s, 0, max);
        r.push('…');
        r
    }
}

/// Cuts a text to `max` characters, appending `…` when anything was cut.
pub fn sleep_truncate(s: &str, max: usize) -> (r: String)
    ensures
        r@ == truncate(s@, max as nat),
{
    string_of(&truncate_chars(&chars_of(s), max))
}

// ---------------------------------------------------------------------
// Record fields
// ---------------------------------------------------------------------

/// The text of the first field named `key`, if any.
pub open spec fn field_of(fields: Seq<(Seq<char>, Seq<char>)>, key: Seq<char>) -> Option<Seq<char>>
    decreases fields.len(),
{
    if fields.len() == 0 {
        None
    } else if fields[0].0 == key {
        Some(fields[0].1)
    } else {
        field_of(fields.drop_first(), key)
    }
}

/// The text of a field, empty when absent.
pub open spec fn field_text(fields: Seq<(Seq<char>, Seq<char>)>, key: Seq<char>) -> Seq<char> {
    match field_of(fields, key) {
        Some(v) => v,
        None => Seq::empty(),
    }
}

fn field_text_exec(fields: &Vec<(String, String)>, key: &str) -> (r: Vec<char>)
    ensures
        r@ == field_text(seq_view(fields@), key@),
{
    let k = chars_of(key);
    let mut i: usize = 0;
    let ghost fv = seq_view(fields@);
    assert(fv.subrange(0, fv.len() as int) =~= fv);
    while i < fields.len()
        invariant
            i <= fields.len(),
            k@ == key@,
            fv == seq_view(fields@),
            field_of(fv.subrange(i as int, fv.len() as int), key@) == field_of(fv, key@),
        decreases fields.len() - i,
    {
        let ghost rest = fv.subrange(i as int, fv.len() as int);
        assert(rest.drop_first() =~= fv.subrange(i + 1, fv.len() as int));
        let name = chars_of(fields[i].0.as_str());
        if eq(&name, &k) {
            return chars_of(fields[i].1.as_str());
        }
        i = i + 1;
    }
    Vec::new()
}

/// The keys a dream record may carry its text under, English first.
pub open spec fn dream_keys() -> Seq<Seq<char>> {
    seq!["english_translation"@, "english"@, "impression"@, "text"@, "translation"@, "french_image"@, "image"@]
}

/// The first non-empty text among `keys`.
pub open spec fn first_text(fields: Seq<(Seq<char>, Seq<char>)>, keys: Seq<Seq<char>>) -> Seq<char>
    decreases keys.len(),
{
    if keys.len() == 0 {
        Seq::empty()
    } else if field_text(fields, keys[0]).len() > 0 {
        field_text(fields, keys[0])
    } else {
        first_text(fields, keys.drop_first())
    }
}

/// The human-readable text of a dream record: the first non-empty field
/// among `english_translation`, `english`, `impression`, `text`,
/// `translation`, `french_image` and `image`, or nothing.
pub fn sleep_pick_dream_text(fields: &Vec<(String, String)>) -> (r: String)
    ensures
        r@ == first_text(seq_view(fields@), dream_keys()),
{
    let keys: [&str; 7] = ["english_translation", "english", "impression", "text", "translation", "french_image", "image"];
    let ghost ks = dream_keys();
    assert(keys@.map_values(|k: &str| k@) =~= ks);
    let mut i: usize = 0;
    assert(ks.subrange(0, 7) =~= ks);
    while i < 7
        invariant
            i <= 7,
            ks == dream_keys(),
            keys@.map_values(|k: &str| k@) == ks,
            first_text(seq_view(fields@), ks.subrange(i as int, 7)) == first_text(seq_view(fields@), ks),
        decreases 7 - i,
    {
        let ghost rest = ks.subrange(i as int, 7);
        assert(rest.drop_first() =~= ks.subrange(i + 1, 7));
        assert(rest[0] == keys@[i as int]@);
        let v = field_text_exec(fields, keys[i]);
        if v.len() > 0 {
            return string_of(&v);
        }
        i = i + 1;
    }
    assert(ks.subrange(7, 7).len() == 0);
    String::new()
}

// ---------------------------------------------------------------------
// The watch
// ---------------------------------------------------------------------

/// What the watch remembers between polls: the last value of each
/// streamed field.
pub struct SleepWatch {
    pub last_stage: Option<String>,
    pub last_cycle: Option<i64>,
    pub last_lucid: Option<String>,
    pub last_dream_id: Option<String>,
    pub last_lucid_id: Option<String>,
    pub last_state: Option<String>,
}

pub struct SleepWatchModel {
    pub last_stage: Option<Seq<char>>,
    pub last_cycle: Option<i64>,
    pub last_lucid: Option<Seq<char>>,
    pub last_dream_id: Option<Seq<char>>,
    pub last_lucid_id: Option<Seq<char>>,
    pub last_state: Option<Seq<char>>,
}

impl View for SleepWatch {
    type V = SleepWatchModel;

    open spec fn view(&self) -> SleepWatchModel {
        SleepWatchModel {
            last_stage: opt_view(self.last_stage),
            last_cycle: self.last_cycle,
            last_lucid: opt_view(self.last_lucid),
            last_dream_id: opt_view(self.last_dream_id),
            last_lucid_id: opt_view(self.last_lucid_id),
            last_state: opt_view(self.last_state),
        }
    }
}

impl SleepWatch {
    /// A watch that has seen nothing yet.
    pub fn new() -> (w: SleepWatch)
        ensures
            w@ == (SleepWatchModel {
                last_stage: None,
                last_cycle: None,
                last_lucid: None,
                last_dream_id: None,
                last_lucid_id: None,
                last_state: None,
            }),
    {
        SleepWatch {
            last_stage: None,
            last_cycle: None,
            last_lucid: None,
            last_dream_id: None,
            last_lucid_id: None,
            last_state: None,
        }
    }
}

/// The latest consciousness record, its fields defaulted as the watch
/// reads them (`""`, `0`, `"no"`).
pub struct ConsciousnessReading {
    pub state: String,
    pub stage: String,
    pub cycle: i64,
    pub total: i64,
    pub lucid: String,
    pub summary: String,
}

/// One poll: seconds since the watch began, and the latest record of each
/// store that could be read (a record as its text fields).
pub struct SleepTick {
    pub elapsed_secs: u64,
    pub consciousness: Option<ConsciousnessReading>,
    pub dream: Option<Vec<(String, String)>>,
    pub lucid_dream: Option<Vec<(String, String)>>,
}

/// What the watch does after a poll.
#[derive(PartialEq, Eq, Structural)]
pub enum SleepAction {
    /// Sleep a second and poll again.
    Continue,
    /// The body woke: read the wake report.
    Woke,
    /// Give up with exit status 1 (timeout, or sleep never began).
    GiveUp,
}

/// `[mm:ss]  ` before every streamed line.
pub open spec fn stamp(secs: nat) -> Seq<char> {
    "["@ + fmt_elapsed(secs) + "]  "@
}

pub open spec fn opt_eq(a: Option<Seq<char>>, b: Seq<char>) -> bool {
    a == Some(b)
}

/// The consciousness part of a poll: the stage line, the wake line, or
/// the give-up line, and the updated memory.
pub open spec fn consciousness_next(w: SleepWatchModel, secs: nat, c: ConsciousnessReading)
    -> (SleepWatchModel, Seq<Seq<char>>, SleepAction)
{
    let state = c.state@;
    let stage = c.stage@;
    let lucid = c.lucid@;
    let changed = !opt_eq(w.last_stage, stage) || w.last_cycle != Some(c.cycle) || !opt_eq(w.last_lucid, lucid);
    let (w1, l1) = if changed && stage.len() > 0 && state == "sleeping"@ {
        let prefix = if lucid == "yes"@ { "lucid "@ + stage } else { stage };
        (
            SleepWatchModel { last_stage: Some(stage), last_cycle: Some(c.cycle), last_lucid: Some(lucid), ..w },
            seq![stamp(secs) + pad_right(prefix, 10) + "  cycle "@ + int_str(c.cycle as int) + "/"@ + int_str(c.total as int)],
        )
    } else {
        (w, Seq::<Seq<char>>::empty())
    };
    if !opt_eq(w1.last_state, state) && state != "sleeping"@ && state.len() > 0 && w1.last_state is Some {
        let suffix = if c.summary@.len() > 0 { "  ·  "@ + truncate(c.summary@, 80) } else { Seq::empty() };
        (w1, l1.push(stamp(secs) + "waking "@ + state + suffix), SleepAction::Woke)
    } else {
        let w2 = if !opt_eq(w1.last_state, state) { SleepWatchModel { last_state: Some(state), ..w1 } } else { w1 };
        if !opt_eq(w2.last_state, "sleeping"@) && secs > 5 {
            let shown = match w2.last_state { Some(s) => s, None => Seq::empty() };
            (w2, l1.push(stamp(secs) + "state="@ + shown + " — never entered sleep, exiting"@), SleepAction::GiveUp)
        } else {
            (w2, l1, SleepAction::Continue)
        }
    }
}

/// A record's new id, when it has one that differs from the last seen.
pub open spec fn fresh_id(last: Option<Seq<char>>, fields: Seq<(Seq<char>, Seq<char>)>) -> bool {
    let id = field_text(fields, "id"@);
    id.len() > 0 && !opt_eq(last, id)
}

/// The decision for one poll of the watch.
pub open spec fn sleep_next(w: SleepWatchModel, t: SleepTick) -> (SleepWatchModel, Seq<Seq<char>>, SleepAction) {
    let secs = t.elapsed_secs as nat;
    if secs > 1800 {
        (w, seq![stamp(secs) + "TIMEOUT — 30 min without wake"@], SleepAction::GiveUp)
    } else {
        let (w1, l1, a1) = match t.consciousness {
            Some(c) => consciousness_next(w, secs, c),
            None => (w, Seq::<Seq<char>>::empty(), SleepAction::Continue),
        };
        if a1 != SleepAction::Continue {
            (w1, l1, a1)
        } else {
            let (w2, l2) = match t.dream {
                Some(d) if fresh_id(w1.last_dream_id, seq_view(d@)) => {
                    let text = first_text(seq_view(d@), dream_keys());
                    (
                        SleepWatchModel { last_dream_id: Some(field_text(seq_view(d@), "id"@)), ..w1 },
                        if text.len() > 0 { l1.push(stamp(secs) + "dream  ·  "@ + truncate(text, 120)) } else { l1 },
                    )
                },
                _ => (w1, l1),
            };
            let (w3, l3) = match t.lucid_dream {
                Some(d) if fresh_id(w2.last_lucid_id, seq_view(d@)) => {
                    let text = field_text(seq_view(d@), "latest_narrative"@);
                    (
                        SleepWatchModel { last_lucid_id: Some(field_text(seq_view(d@), "id"@)), ..w2 },
                        if text.len() > 0 { l2.push(stamp(secs) + "lucid  ·  "@ + truncate(text, 120)) } else { l2 },
                    )
                },
                _ => (w2, l2),
            };
            (w3, l3, SleepAction::Continue)
        }
    }
}

fn opt_eq_exec(a: &Option<String>, b: &Vec<char>) -> (r: bool)
    ensures
        r == opt_eq(opt_view(*a), b@),
{
    match a {
        Some(x) => eq(&chars_of(x.as_str()), b),
        None => false,
    }
}

fn stamp_exec(secs: u64) -> (r: Vec<char>)
    ensures
        r@ == stamp(secs as nat),
{
    let a = concat(&chars_of("["), &chars_of(sleep_fmt_elapsed(secs).as_str()));
    concat(&a, &chars_of("]  "))
}

fn join3(a: &Vec<char>, b: &Vec<char>, c: &Vec<char>) -> (r: Vec<char>)
    ensures
        r@ == a@ + b@ + c@,
{
    concat(&concat(a, b), c)
}

fn consciousness_step(w: SleepWatch, secs: u64, c: &ConsciousnessReading) -> (r: (SleepWatch, Vec<String>, SleepAction))
    ensures
        ({
            let (mw, ml, ma) = consciousness_next(w@, secs as nat, *c);
            r.0@ == mw && seq_view(r.1@) == ml && r.2 == ma
        }),
{
    proof {
        reveal_strlit("sleeping");
        reveal_strlit("yes");
    }
    let state = chars_of(c.state.as_str());
    let stage = chars_of(c.stage.as_str());
    let lucid = chars_of(c.lucid.as_str());
    let mut w = w;
    let ghost w0 = w@;
    let mut lines: Vec<String> = Vec::new();
    let changed = !opt_eq_exec(&w.last_stage, &stage) || w.last_cycle != Some(c.cycle) || !opt_eq_exec(&w.last_lucid, &lucid);
    if changed && stage.len() > 0 && eq_str(&state, "sleeping") {
        let prefix = if eq_str(&lucid, "yes") { concat(&chars_of("lucid "), &stage) } else { stage.clone() };
        let head = concat(&stamp_exec(secs), &pad_right_exec(&prefix, 10));
        let cyc = join3(&head, &chars_of("  cycle "), &i64_chars(c.cycle));
        let line = join3(&cyc, &chars_of("/"), &i64_chars(c.total));
        lines.push(string_of(&line));
        w.last_stage = Some(c.stage.clone());
        w.last_cycle = Some(c.cycle);
        w.last_lucid = Some(c.lucid.clone());
    }
    let ghost w1 = w@;
    let ghost l1 = seq_view(lines@);
    assert(({
        let (mw1, ml1) = if changed && stage@.len() > 0 && state@ == "sleeping"@ {
            let prefix = if lucid@ == "yes"@ { "lucid "@ + stage@ } else { stage@ };
            (
                SleepWatchModel { last_stage: Some(stage@), last_cycle: Some(c.cycle), last_lucid: Some(lucid@), ..w0 },
                seq![stamp(secs as nat) + pad_right(prefix, 10) + "  cycle "@ + int_str(c.cycle as int) + "/"@ + int_str(c.total as int)],
            )
        } else {
            (w0, Seq::<Seq<char>>::empty())
        };
        mw1 == w1 && ml1 == l1
    }));
    let state_new = !opt_eq_exec(&w.last_state, &state);
    if state_new && !eq_str(&state, "sleeping") && state.len() > 0 && w.last_state.is_some() {
        let summary = chars_of(c.summary.as_str());
        let suffix = if summary.len() > 0 {
            concat(&chars_of("  ·  "), &truncate_chars(&summary, 80))
        } else {
            Vec::new()
        };
        let a = concat(&stamp_exec(secs), &chars_of("waking "));
        let line = join3(&a, &state, &suffix);
        let ghost before = seq_view(lines@);
        lines.push(string_of(&line));
        assert(seq_view(lines@) == before.push(line@));
        return (w, lines, SleepAction::Woke);
    }
    if state_new {
        w.last_state = Some(c.state.clone());
    }
    if !opt_eq_exec(&w.last_state, &chars_of("sleeping")) && secs > 5 {
        let shown = match &w.last_state { Some(s) => chars_of(s.as_str()), None => Vec::new() };
        let a = concat(&stamp_exec(secs), &chars_of("state="));
        let line = join3(&a, &shown, &chars_of(" — never entered sleep, exiting"));
        let ghost before = seq_view(lines@);
        lines.push(string_of(&line));
        assert(seq_view(lines@) == before.push(line@));
        return (w, lines, SleepAction::GiveUp);
    }
    (w, lines, SleepAction::Continue)
}

/// One poll of the watch: the lines to stream, in order, and what to do
/// next, with the watch's memory brought up to date.
pub fn sleep_step(w: SleepWatch, t: &SleepTick) -> (r: (SleepWatch, Vec<String>, SleepAction))
    ensures
        ({
            let (mw, ml, ma) = sleep_next(w@, *t);
            r.0@ == mw && seq_view(r.1@) == ml && r.2 == ma
        }),
{
    let secs = t.elapsed_secs;
    if secs > 1800 {
        let line = concat(&stamp_exec(secs), &chars_of("TIMEOUT — 30 min without wake"));
        let mut lines: Vec<String> = Vec::new();
        lines.push(string_of(&line));
        assert(seq_view(lines@) =~= seq![line@]);
        return (w, lines, SleepAction::GiveUp);
    }
    let (mut w1, mut lines, a1) = match &t.consciousness {
        Some(c) => consciousness_step(w, secs, c),
        None => {
            let v: Vec<String> = Vec::new();
            assert(seq_view(v@) =~= Seq::<Seq<char>>::empty());
            (w, v, SleepAction::Continue)
        },
    };
    if a1 != SleepAction::Continue {
        return (w1, lines, a1);
    }
    if let Some(d) = &t.dream {
        let id = field_text_exec(d, "id");
        if id.len() > 0 && !opt_eq_exec(&w1.last_dream_id, &id) {
            let text = chars_of(sleep_pick_dream_text(d).as_str());
            if text.len() > 0 {
                let line = concat(&concat(&stamp_exec(secs), &chars_of("dream  ·  ")), &truncate_chars(&text, 120));
                let ghost before = seq_view(lines@);
                lines.push(string_of(&line));
                assert(seq_view(lines@) == before.push(line@));
            }
            w1.last_dream_id = Some(string_of(&id));
        }
    }
    if let Some(d) = &t.lucid_dream {
        let id = field_text_exec(d, "id");
        if id.len() > 0 && !opt_eq_exec(&w1.last_lucid_id, &id) {
            let text = field_text_exec(d, "latest_narrative");
            if text.len() > 0 {
                let line = concat(&concat(&stamp_exec(secs), &chars_of("lucid  ·  ")), &truncate_chars(&text, 120));
                let ghost before = seq_view(lines@);
                lines.push(string_of(&line));
                assert(seq_view(lines@) == before.push(line@));
            }
            w1.last_lucid_id = Some(string_of(&id));
        }
    }
    (w1, lines, SleepAction::Continue)
}

/// The opening line of a watch, and whether the body must be sent to
/// sleep first: a body already `sleeping` is joined mid-sleep.
pub fn sleep_opening(state: Option<&str>) -> (r: (bool, String))
    ensures
        r.0 == !(state matches Some(s) && s@ == "sleeping"@),
        r.1@ == (if r.0 { "[00:00]  dispatching EnterSleep"@ } else { "[00:00]  joining mid-sleep"@ }),
{
    let sleeping = match state {
        Some(s) => eq_str(&chars_of(s), "sleeping"),
        None => false,
    };
    if sleeping {
        (false, "[00:00]  joining mid-sleep".to_string())
    } else {
        (true, "[00:00]  dispatching EnterSleep".to_string())
    }
}

/// The watch streams changes, not polls: a poll that reads exactly what
/// the previous poll read, after that poll let the watch continue, streams
/// nothing unless it ends the watch.
pub proof fn law_unchanged_poll_streams_nothing(w: SleepWatchModel, t1: SleepTick, t2: SleepTick)
    requires
        sleep_next(w, t1).2 == SleepAction::Continue,
        t2.elapsed_secs <= 1800,
        t2.consciousness == t1.consciousness,
        t2.dream == t1.dream,
        t2.lucid_dream == t1.lucid_dream,
        sleep_next(sleep_next(w, t1).0, t2).2 == SleepAction::Continue,
    ensures
        sleep_next(sleep_next(w, t1).0, t2).1.len() == 0,
{
}

} // verus!

//! The rich dispatch block of the log: one pretty-printed object per
//! top-level dispatch, read line by line so that a value quoting another
//! key cannot poison a field, and rendered as a terse coloured line.

use vstd::prelude::*;
use crate::ir::{group_views, seq_view};
use crate::parser::{source_lines, source_lines_exec};
use crate::run_follow::palette::{Colour, code, colour_code};
use crate::text::{Stop, chars_of, concat, digit_prefix, digits_u64, eq_str, find_char, find_char_exec, find_seq, find_str, parse_digits_u64, rfind_char, rfind_char_exec, slice, split_seq, split_seq_exec, starts_with, starts_with_str, string_of, tail, take_until_exec, trim_start, trim_start_exec, u64_chars, dec_str, views, lemma_scan, stops};

verus! {

broadcast use group_views;

/// The fields `follow` reads out of a rich dispatch block.
pub struct Block {
    /// The address `Domain::Aggregate.Command`.
    pub command: String,
    pub outcome: String,
    pub elapsed_ms: u64,
    pub event_count: u64,
    pub source_tag: String,
}

/// The first line whose text, leading whitespace aside, starts with `key`.
pub open spec fn key_line(lines: Seq<Seq<char>>, key: Seq<char>) -> Option<Seq<char>>
    decreases lines.len(),
{
    if lines.len() == 0 {
        None
    } else if starts_with(trim_start(lines[0]), key) {
        Some(lines[0])
    } else {
        key_line(lines.drop_first(), key)
    }
}

/// The rest of `line` after the first occurrence of `key`.
pub open spec fn after_key(line: Seq<char>, key: Seq<char>) -> Option<Seq<char>> {
    match find_seq(line, key) {
        Some(i) => if 0 <= i && i + key.len() <= line.len() { Some(line.subrange(i + key.len(), line.len() as int)) } else { None },
        None => None,
    }
}

/// The first `"..."`-quoted token after `key` within one line.
pub open spec fn quoted_after(line: Seq<char>, key: Seq<char>) -> Option<Seq<char>> {
    match after_key(line, key) {
        Some(a) => match find_char(a, '"') {
            Some(st) => {
                let rest = a.subrange(st + 1, a.len() as int);
                match find_char(rest, '"') {
                    Some(e) => Some(rest.subrange(0, e)),
                    None => None,
                }
            },
            None => None,
        },
        None => None,
    }
}

/// The string field `key` of a block.
pub open spec fn line_string(text: Seq<char>, key: Seq<char>) -> Option<Seq<char>> {
    match key_line(source_lines(text), key) {
        Some(l) => quoted_after(l, key),
        None => None,
    }
}

/// The number field `key` of a block: the digits leading the value.
pub open spec fn line_number(text: Seq<char>, key: Seq<char>) -> Option<int> {
    match key_line(source_lines(text), key) {
        Some(l) => match after_key(l, key) {
            Some(a) => digits_u64(digit_prefix(trim_start(a))),
            None => None,
        },
        None => None,
    }
}

fn key_line_exec(lines: &Vec<Vec<char>>, key: &str) -> (r: Option<Vec<char>>)
    ensures
        match r {
            Some(l) => key_line(views(lines@), key@) == Some(l@),
            None => key_line(views(lines@), key@) is None,
        },
{
    let ghost lv = views(lines@);
    let mut i: usize = 0;
    assert(lv.subrange(0, lv.len() as int) =~= lv);
    while i < lines.len()
        invariant
            i <= lines.len(),
            lv == views(lines@),
            key_line(lv.subrange(i as int, lv.len() as int), key@) == key_line(lv, key@),
        decreases lines.len() - i,
    {
        let ghost rest = lv.subrange(i as int, lv.len() as int);
        assert(rest.drop_first() =~= lv.subrange(i + 1, lv.len() as int));
        assert(rest[0] == lines@[i as int]@);
        if starts_with_str(&trim_start_exec(&lines[i]), key) {
            return Some(lines[i].clone());
        }
        i = i + 1;
    }
    None
}

fn after_key_exec(line: &Vec<char>, key: &str) -> (r: Option<Vec<char>>)
    ensures
        match r {
            Some(a) => after_key(line@, key@) == Some(a@),
            None => after_key(line@, key@) is None,
        },
{
    match find_str(line, key) {
        Some(i) => Some(tail(line, i + chars_of(key).len())),
        None => None,
    }
}

fn first_quoted_after(line: &Vec<char>, key: &str) -> (r: Option<Vec<char>>)
    ensures
        match r {
            Some(q) => quoted_after(line@, key@) == Some(q@),
            None => quoted_after(line@, key@) is None,
        },
{
    let a = match after_key_exec(line, key) {
        Some(a) => a,
        None => return None,
    };
    let st = match find_char_exec(&a, '"') {
        Some(st) => st,
        None => return None,
    };
    let rest = tail(&a, st + 1);
    match find_char_exec(&rest, '"') {
        Some(e) => Some(slice(&rest, 0, e)),
        None => None,
    }
}

fn line_string_exec(lines: &Vec<Vec<char>>, key: &str) -> (r: Option<Vec<char>>)
    ensures
        match r {
            Some(q) => (match key_line(views(lines@), key@) { Some(l) => quoted_after(l, key@), None => None }) == Some(q@),
            None => (match key_line(views(lines@), key@) { Some(l) => quoted_after(l, key@), None => None }) is None,
        },
{
    match key_line_exec(lines, key) {
        Some(l) => first_quoted_after(&l, key),
        None => None,
    }
}

fn line_number_exec(lines: &Vec<Vec<char>>, key: &str) -> (r: Option<u64>)
    ensures
        match r {
            Some(v) => (match key_line(views(lines@), key@) {
                Some(l) => match after_key(l, key@) { Some(a) => digits_u64(digit_prefix(trim_start(a))), None => None },
                None => None,
            }) == Some(v as int),
            None => (match key_line(views(lines@), key@) {
                Some(l) => match after_key(l, key@) { Some(a) => digits_u64(digit_prefix(trim_start(a))), None => None },
                None => None,
            }) is None,
        },
{
    let l = match key_line_exec(lines, key) {
        Some(l) => l,
        None => return None,
    };
    let a = match after_key_exec(&l, key) {
        Some(a) => a,
        None => return None,
    };
    let t = trim_start_exec(&a);
    let ds = take_until_exec(&t, &Stop::NonDigit);
    proof {
        lemma_scan(t@, Stop::NonDigit, 0);
        assert forall|k: int| 0 <= k < ds@.len() implies crate::text::is_digit(#[trigger] ds@[k]) by {
            assert(ds@[k] == t@[k]);
            assert(!stops(Stop::NonDigit, t@[k]));
        }
    }
    parse_digits_u64(&ds)
}

/// The block a text holds: its `"command"` line makes it one; `outcome`
/// defaults to `ok`, the numbers to `0`, the source tag to empty.
pub open spec fn block_of(text: Seq<char>) -> Option<(Seq<char>, Seq<char>, int, int, Seq<char>)> {
    match line_string(text, "\"command\":"@) {
        None => None,
        Some(c) => Some((
            c,
            match line_string(text, "\"outcome\":"@) { Some(o) => o, None => "ok"@ },
            match line_number(text, "\"elapsed_ms\":"@) { Some(n) => n, None => 0 },
            match line_number(text, "\"event_count\":"@) { Some(n) => n, None => 0 },
            match line_string(text, "\"source_tag\":"@) { Some(s) => s, None => Seq::empty() },
        )),
    }
}

// ---------------------------------------------------------------------
// The address
// ---------------------------------------------------------------------

/// The address parted at its last `.`: the head and the command word.
pub open spec fn head_and_command(c: Seq<char>) -> (Seq<char>, Seq<char>) {
    match rfind_char(c, '.') {
        Some(i) => (c.subrange(0, i), c.subrange(i + 1, c.len() as int)),
        None => (c, Seq::empty()),
    }
}

/// The non-empty words, in order.
pub open spec fn nonempty_words(ws: Seq<Seq<char>>) -> Seq<Seq<char>>
    decreases ws.len(),
{
    if ws.len() == 0 {
        Seq::empty()
    } else {
        nonempty_words(ws.drop_last()) + if ws.last().len() > 0 { seq![ws.last()] } else { Seq::empty() }
    }
}

/// `[Domain, Aggregate, Command]` from `Domain::Aggregate.Command`.
pub open spec fn prefix_words_of(c: Seq<char>) -> Seq<Seq<char>> {
    let (head, cmd) = head_and_command(c);
    let ws = split_seq(head, "::"@);
    nonempty_words(if cmd.len() > 0 { ws.push(cmd) } else { ws })
}

/// The address before its first `.`.
pub open spec fn address_head(c: Seq<char>) -> Seq<char> {
    match find_char(c, '.') {
        Some(i) => c.subrange(0, i),
        None => c,
    }
}

pub open spec fn domain_of(c: Seq<char>) -> Seq<char> {
    split_seq(address_head(c), "::"@)[0]
}

pub open spec fn aggregate_of(c: Seq<char>) -> Seq<char> {
    let parts = split_seq(address_head(c), "::"@);
    if parts.len() > 1 { parts[1] } else { parts[0] }
}

pub(crate) fn nonempty_exec(ws: Vec<Vec<char>>) -> (r: Vec<String>)
    ensures
        seq_view(r@) == nonempty_words(views(ws@)),
{
    let ghost wv = views(ws@);
    let mut out: Vec<String> = Vec::new();
    let mut i: usize = 0;
    assert(wv.take(0) =~= Seq::<Seq<char>>::empty());
    while i < ws.len()
        invariant
            i <= ws.len(),
            wv == views(ws@),
            seq_view(out@) == nonempty_words(wv.take(i as int)),
        decreases ws.len() - i,
    {
        assert(wv.take(i + 1).drop_last() =~= wv.take(i as int));
        if ws[i].len() > 0 {
            out.push(string_of(&ws[i]));
        }
        i = i + 1;
    }
    assert(wv.take(wv.len() as int) =~= wv);
    out
}

fn head_exec(c: &Vec<char>) -> (r: Vec<char>)
    ensures
        r@ == address_head(c@),
{
    match find_char_exec(c, '.') {
        Some(i) => slice(c, 0, i),
        None => c.clone(),
    }
}

proof fn lemma_split_nonempty(s: Seq<char>)
    ensures
        split_seq(s, "::"@).len() >= 1,
{
    reveal_strlit("::");
    crate::text::lemma_find_seq_from(s, "::"@, 0);
    match crate::text::find_seq_from(s, "::"@, 0) {
        Some(k) => {
            if !(k < 0 || k + 2 > s.len()) {
                assert(split_seq(s, "::"@).len() >= 1);
            }
        },
        None => {},
    }
}

impl Block {
    /// Reads a block; `None` when the text has no `"command"` line (a
    /// stray terse one-liner).
    pub fn parse(text: &str) -> (r: Option<Block>)
        ensures
            match r {
                Some(b) => block_of(text@) == Some((b.command@, b.outcome@, b.elapsed_ms as int, b.event_count as int, b.source_tag@)),
                None => block_of(text@) is None,
            },
    {
        proof { reveal_strlit("ok"); }
        let lines = source_lines_exec(&chars_of(text));
        let command = match line_string_exec(&lines, "\"command\":") {
            Some(c) => c,
            None => return None,
        };
        let outcome = match line_string_exec(&lines, "\"outcome\":") {
            Some(o) => o,
            None => chars_of("ok"),
        };
        let elapsed_ms = match line_number_exec(&lines, "\"elapsed_ms\":") {
            Some(n) => n,
            None => 0,
        };
        let event_count = match line_number_exec(&lines, "\"event_count\":") {
            Some(n) => n,
            None => 0,
        };
        let source_tag = match line_string_exec(&lines, "\"source_tag\":") {
            Some(s) => s,
            None => Vec::new(),
        };
        Some(Block {
            command: string_of(&command),
            outcome: string_of(&outcome),
            elapsed_ms,
            event_count,
            source_tag: string_of(&source_tag),
        })
    }

    /// `["Domain", "Aggregate", "Command"]` from the address; empty words
    /// are dropped, so a single token gives one word.
    pub fn prefix_words(&self) -> (r: Vec<String>)
        ensures
            seq_view(r@) == prefix_words_of(self.command@),
    {
        proof { reveal_strlit("::"); }
        let c = chars_of(self.command.as_str());
        let (head, cmd) = match rfind_char_exec(&c, '.') {
            Some(i) => (slice(&c, 0, i), tail(&c, i + 1)),
            None => (c.clone(), Vec::new()),
        };
        let mut ws = split_seq_exec(&head, &chars_of("::"));
        let ghost w0 = views(ws@);
        if cmd.len() > 0 {
            ws.push(cmd);
            assert(views(ws@) == w0.push(cmd@));
        }
        nonempty_exec(ws)
    }

    /// The domain: the address's first `::` segment (before any `.`).
    pub fn domain(&self) -> (r: String)
        ensures
            r@ == domain_of(self.command@),
    {
        proof { reveal_strlit("::"); }
        let head = head_exec(&chars_of(self.command.as_str()));
        let parts = split_seq_exec(&head, &chars_of("::"));
        proof { lemma_split_nonempty(head@); }
        string_of(&parts[0])
    }

    /// The aggregate: the second `::` segment, or the domain when there is
    /// only one.
    pub fn aggregate(&self) -> (r: String)
        ensures
            r@ == aggregate_of(self.command@),
    {
        proof { reveal_strlit("::"); }
        let head = head_exec(&chars_of(self.command.as_str()));
        let parts = split_seq_exec(&head, &chars_of("::"));
        proof { lemma_split_nonempty(head@); }
        if parts.len() > 1 { string_of(&parts[1]) } else { string_of(&parts[0]) }
    }
}

// ---------------------------------------------------------------------
// Rendering
// ---------------------------------------------------------------------

/// Word `i` of the prefix: dim, or bright cyan when it is the last.
pub open spec fn prefix_piece(ws: Seq<Seq<char>>, i: int) -> Seq<char> {
    (if i > 0 { " "@ } else { Seq::empty() })
        + code(if i == ws.len() - 1 { Colour::Cyan } else { Colour::Dim }) + ws[i] + code(Colour::Reset)
}

/// The first `k` words of the prefix.
pub open spec fn prefix_inner(ws: Seq<Seq<char>>, k: int) -> Seq<char>
    decreases k,
{
    if k <= 0 { Seq::empty() } else { prefix_inner(ws, k - 1) + prefix_piece(ws, k - 1) }
}

/// `[Domain Aggregate Command]`, brackets dim.
pub open spec fn render_prefix(ws: Seq<Seq<char>>) -> Seq<char> {
    if ws.len() == 0 {
        code(Colour::Dim) + "[]"@ + code(Colour::Reset)
    } else {
        code(Colour::Dim) + "["@ + code(Colour::Reset) + prefix_inner(ws, ws.len() as int)
            + code(Colour::Dim) + "]"@ + code(Colour::Reset)
    }
}

pub(crate) fn render_prefix_exec(ws: &Vec<String>) -> (r: Vec<char>)
    ensures
        r@ == render_prefix(seq_view(ws@)),
{
    let ghost wv = seq_view(ws@);
    if ws.len() == 0 {
        let a = concat(&colour_code(Colour::Dim), &chars_of("[]"));
        return concat(&a, &colour_code(Colour::Reset));
    }
    let mut inner: Vec<char> = Vec::new();
    let mut i: usize = 0;
    while i < ws.len()
        invariant
            i <= ws.len(),
            wv == seq_view(ws@),
            inner@ == prefix_inner(wv, i as int),
        decreases ws.len() - i,
    {
        let lead = if i > 0 { chars_of(" ") } else { Vec::new() };
        let col = if i == ws.len() - 1 { colour_code(Colour::Cyan) } else { colour_code(Colour::Dim) };
        let piece = concat(&concat(&concat(&lead, &col), &chars_of(ws[i].as_str())), &colour_code(Colour::Reset));
        assert(piece@ == prefix_piece(wv, i as int));
        inner = concat(&inner, &piece);
        i = i + 1;
    }
    let mut out = concat(&concat(&colour_code(Colour::Dim), &chars_of("[")), &colour_code(Colour::Reset));
    out = concat(&out, &inner);
    out = concat(&out, &colour_code(Colour::Dim));
    out = concat(&out, &chars_of("]"));
    concat(&out, &colour_code(Colour::Reset))
}

/// The terse line of a block, with its elapsed time already written:
/// `[Domain Aggregate Command] ok 12.3s · 4 events · operator`, the
/// outcome red on `error` and green otherwise.
pub open spec fn terse_line(command: Seq<char>, outcome: Seq<char>, elapsed: Seq<char>, n: nat, tag: Seq<char>) -> Seq<char> {
    let oc = if outcome == "error"@ { Colour::BrightRed } else { Colour::Green };
    let plural = if n == 1 { "event"@ } else { "events"@ };
    render_prefix(prefix_words_of(command)) + " "@ + code(oc) + outcome + code(Colour::Reset) + " "@
        + code(Colour::Yellow) + elapsed + code(Colour::Reset) + " "@
        + code(Colour::Dim) + "·"@ + code(Colour::Reset) + " "@ + dec_str(n) + " "@ + plural + " "@
        + code(Colour::Dim) + "·"@ + code(Colour::Reset) + " "@ + code(Colour::Magenta) + tag + code(Colour::Reset)
}

impl Block {
    /// The terse coloured one-liner, given the block's elapsed time as
    /// text (`3ms`, `12.3s`).
    pub fn terse_with(&self, elapsed: &str) -> (r: String)
        ensures
            r@ == terse_line(self.command@, self.outcome@, elapsed@, self.event_count as nat, self.source_tag@),
    {
        let oc = if eq_str(&chars_of(self.outcome.as_str()), "error") { Colour::BrightRed } else { Colour::Green };
        let plural = if self.event_count == 1 { chars_of("event") } else { chars_of("events") };
        let sp = chars_of(" ");
        let dot = chars_of("·");
        let mut o = render_prefix_exec(&self.prefix_words());
        o = concat(&o, &sp);
        o = concat(&o, &colour_code(oc));
        o = concat(&o, &chars_of(self.outcome.as_str()));
        o = concat(&o, &colour_code(Colour::Reset));
        o = concat(&o, &sp);
        o = concat(&o, &colour_code(Colour::Yellow));
        o = concat(&o, &chars_of(elapsed));
        o = concat(&o, &colour_code(Colour::Reset));
        o = concat(&o, &sp);
        o = concat(&o, &colour_code(Colour::Dim));
        o = concat(&o, &dot);
        o = concat(&o, &colour_code(Colour::Reset));
        o = concat(&o, &sp);
        o = concat(&o, &u64_chars(self.event_count));
        o = concat(&o, &sp);
        o = concat(&o, &plural);
        o = concat(&o, &sp);
        o = concat(&o, &colour_code(Colour::Dim));
        o = concat(&o, &dot);
        o = concat(&o, &colour_code(Colour::Reset));
        o = concat(&o, &sp);
        o = concat(&o, &colour_code(Colour::Magenta));
        o = concat(&o, &chars_of(self.source_tag.as_str()));
        o = concat(&o, &colour_code(Colour::Reset));
        string_of(&o)
    }
}

/// `s` split at the first occurrence of `p`.
pub open spec fn split_at_seq(s: Seq<char>, p: Seq<char>) -> Option<(Seq<char>, Seq<char>)> {
    match find_seq(s, p) {
        Some(i) => if 0 <= i && i + p.len() <= s.len() {
            Some((s.subrange(0, i), s.subrange(i + p.len(), s.len() as int)))
        } else {
            None
        },
        None => None,
    }
}

fn split_at_str(s: &Vec<char>, p: &str) -> (r: Option<(Vec<char>, Vec<char>)>)
    ensures
        match r {
            Some(x) => split_at_seq(s@, p@) == Some((x.0@, x.1@)),
            None => split_at_seq(s@, p@) is None,
        },
{
    match find_str(s, p) {
        Some(i) => Some((slice(s, 0, i), tail(s, i + chars_of(p).len()))),
        None => None,
    }
}

/// The colour of a legacy line's verb.
pub open spec fn verb_colour(verb: Seq<char>, failed: bool) -> Colour {
    if verb == "dispatch"@ {
        Colour::Cyan
    } else if verb == "event"@ {
        Colour::Green
    } else if verb == "cascade"@ {
        if failed { Colour::BrightRed } else { Colour::Green }
    } else if verb == "policy"@ {
        Colour::Magenta
    } else {
        Colour::Dim
    }
}

/// A legacy one-line entry `[ts] verb rest`: timestamp dim, verb
/// coloured by kind; a line of another shape is left as it is.
pub open spec fn legacy_line(line: Seq<char>) -> Seq<char> {
    match split_at_seq(line, "] "@) {
        None => line,
        Some((t, rest)) => {
            let (verb, tl) = match crate::text::split_once(rest, ' ') {
                Some((v, r)) => (v, r),
                None => (rest, Seq::empty()),
            };
            let vc = verb_colour(verb, crate::text::contains_seq(line, "ok=false"@));
            code(Colour::Dim) + t + "]"@ + code(Colour::Reset) + " "@ + code(vc) + verb + code(Colour::Reset) + " "@ + tl
        },
    }
}

/// Colours a legacy single-line log entry.
pub fn colourise_legacy(line: &str) -> (r: String)
    ensures
        r@ == legacy_line(line@),
{
    let l = chars_of(line);
    let (t, rest) = match split_at_str(&l, "] ") {
        Some(p) => p,
        None => return string_of(&l),
    };
    let (verb, tl) = match crate::text::split_once_exec(&rest, ' ') {
        Some(p) => p,
        None => (rest.clone(), Vec::new()),
    };
    let failed = crate::text::contains_str(&l, "ok=false");
    let vc = if eq_str(&verb, "dispatch") {
        Colour::Cyan
    } else if eq_str(&verb, "event") {
        Colour::Green
    } else if eq_str(&verb, "cascade") {
        if failed { Colour::BrightRed } else { Colour::Green }
    } else if eq_str(&verb, "policy") {
        Colour::Magenta
    } else {
        Colour::Dim
    };
    let mut o = concat(&colour_code(Colour::Dim), &t);
    o = concat(&o, &chars_of("]"));
    o = concat(&o, &colour_code(Colour::Reset));
    o = concat(&o, &chars_of(" "));
    o = concat(&o, &colour_code(vc));
    o = concat(&o, &verb);
    o = concat(&o, &colour_code(Colour::Reset));
    o = concat(&o, &chars_of(" "));
    o = concat(&o, &tl);
    string_of(&o)
}

/// The value of `key: value` painted `col`, key and separator plain.
pub open spec fn colour_value(line: Seq<char>, col: Colour) -> Seq<char> {
    match split_at_seq(line, ": "@) {
        Some((k, v)) => k + ": "@ + code(col) + v + code(Colour::Reset),
        None => code(col) + line + code(Colour::Reset),
    }
}

/// The value of `key: "..."` with its escapes undone: `\"`, `\n`, `\t`,
/// then `\\`, each in turn.
pub open spec fn unescape_value(line: Seq<char>) -> Seq<char> {
    match split_at_seq(line, ": "@) {
        Some((k, v)) => k + ": "@ + crate::text::replace_all(crate::text::replace_all(crate::text::replace_all(
            crate::text::replace_all(v, "\\\""@, "\""@), "\\n"@, "\n"@), "\\t"@, "\t"@), "\\\\"@, "\\"@),
        None => line,
    }
}

/// One line of a block re-coloured by its key, or by its event kind.
pub open spec fn colour_line(line: Seq<char>) -> Seq<char> {
    let t = trim_start(line);
    if starts_with(t, "\"command\":"@) {
        colour_value(line, Colour::Cyan)
    } else if starts_with(t, "\"source_tag\":"@) {
        colour_value(line, Colour::Magenta)
    } else if starts_with(t, "\"outcome\":"@) {
        colour_value(line, if crate::text::contains_seq(line, "\"error\""@) { Colour::BrightRed } else { Colour::Green })
    } else if starts_with(t, "\"elapsed_ms\":"@) {
        colour_value(line, Colour::Yellow)
    } else if starts_with(t, "\"args\":"@) || starts_with(t, "\"result_state\":"@) || starts_with(t, "\"metadata_json\":"@) {
        unescape_value(line)
    } else if starts_with(t, "{ \"kind\":"@) {
        let ok = !crate::text::contains_seq(line, "\"ok\": false"@);
        let kind = match quoted_after(line, "\"kind\":"@) { Some(k) => k, None => Seq::empty() };
        code(crate::run_follow::palette::kind_colour(kind, ok)) + line + code(Colour::Reset)
    } else {
        line
    }
}

fn colour_value_exec(line: &Vec<char>, col: Colour) -> (r: Vec<char>)
    ensures
        r@ == colour_value(line@, col),
{
    match split_at_str(line, ": ") {
        Some((k, v)) => {
            let mut o = concat(&k, &chars_of(": "));
            o = concat(&o, &colour_code(col));
            o = concat(&o, &v);
            concat(&o, &colour_code(Colour::Reset))
        },
        None => concat(&concat(&colour_code(col), line), &colour_code(Colour::Reset)),
    }
}

fn unescape_value_exec(line: &Vec<char>) -> (r: Vec<char>)
    ensures
        r@ == unescape_value(line@),
{
    match split_at_str(line, ": ") {
        Some((k, v)) => {
            let a = crate::text::replace_exec(&v, "\\\"", "\"");
            let b = crate::text::replace_exec(&a, "\\n", "\n");
            let c = crate::text::replace_exec(&b, "\\t", "\t");
            let d = crate::text::replace_exec(&c, "\\\\", "\\");
            concat(&concat(&k, &chars_of(": ")), &d)
        },
        None => line.clone(),
    }
}

fn colour_line_exec(line: &Vec<char>) -> (r: Vec<char>)
    ensures
        r@ == colour_line(line@),
{
    let t = trim_start_exec(line);
    if starts_with_str(&t, "\"command\":") {
        colour_value_exec(line, Colour::Cyan)
    } else if starts_with_str(&t, "\"source_tag\":") {
        colour_value_exec(line, Colour::Magenta)
    } else if starts_with_str(&t, "\"outcome\":") {
        let col = if crate::text::contains_str(line, "\"error\"") { Colour::BrightRed } else { Colour::Green };
        colour_value_exec(line, col)
    } else if starts_with_str(&t, "\"elapsed_ms\":") {
        colour_value_exec(line, Colour::Yellow)
    } else if starts_with_str(&t, "\"args\":") || starts_with_str(&t, "\"result_state\":")
        || starts_with_str(&t, "\"metadata_json\":") {
        unescape_value_exec(line)
    } else if starts_with_str(&t, "{ \"kind\":") {
        let ok = !crate::text::contains_str(line, "\"ok\": false");
        let kind = match first_quoted_after(line, "\"kind\":") {
            Some(k) => k,
            None => Vec::new(),
        };
        let col = crate::run_follow::palette::colour_for(string_of(&kind).as_str(), ok);
        concat(&concat(&colour_code(col), line), &colour_code(Colour::Reset))
    } else {
        line.clone()
    }
}

/// Lines joined with newlines.
pub open spec fn joined(ls: Seq<Seq<char>>) -> Seq<char>
    decreases ls.len(),
{
    if ls.len() == 0 {
        Seq::empty()
    } else if ls.len() == 1 {
        ls[0]
    } else {
        joined(ls.drop_last()) + "\n"@ + ls.last()
    }
}

/// A block re-coloured line by line for `--json`, its embedded JSON
/// string values unescaped.
pub fn colourise_json(block_text: &str) -> (r: String)
    ensures
        r@ == joined(source_lines(block_text@).map_values(|l: Seq<char>| colour_line(l))),
{
    let lines = source_lines_exec(&chars_of(block_text));
    let ghost lv = views(lines@).map_values(|l: Seq<char>| colour_line(l));
    let mut out: Vec<char> = Vec::new();
    let mut i: usize = 0;
    while i < lines.len()
        invariant
            i <= lines.len(),
            lv == views(lines@).map_values(|l: Seq<char>| colour_line(l)),
            out@ == joined(lv.take(i as int)),
        decreases lines.len() - i,
    {
        let c = colour_line_exec(&lines[i]);
        assert(lv.take(i + 1).drop_last() =~= lv.take(i as int));
        assert(lv.take(i + 1).last() == c@);
        if i == 0 {
            assert(lv.take(1) =~= seq![c@]);
            out = c;
        } else {
            out = concat(&concat(&out, &chars_of("\n")), &c);
        }
        i = i + 1;
    }
    assert(lv.take(lv.len() as int) =~= lv);
    string_of(&out)
}

/// Degenerate addresses degrade gracefully: a single token with no `.`
/// and no `::` is its own one word.
pub proof fn law_single_token_prefix(c: Seq<char>)
    requires
        c.len() > 0,
        rfind_char(c, '.') is None,
        find_seq(c, "::"@) is None,
    ensures
        prefix_words_of(c) == seq![c],
{
    reveal_strlit("::");
    crate::text::lemma_find_seq_from(c, "::"@, 0);
    assert(split_seq(c, "::"@) =~= seq![c.subrange(0, c.len() as int)]);
    assert(c.subrange(0, c.len() as int) =~= c);
    let ws = split_seq(c, "::"@);
    assert(ws.drop_last() =~= Seq::<Seq<char>>::empty());
    assert(nonempty_words(ws.drop_last()) =~= Seq::<Seq<char>>::empty());
    assert(ws.last() == c);
    assert(nonempty_words(ws) =~= seq![c]);
}

} // verus!

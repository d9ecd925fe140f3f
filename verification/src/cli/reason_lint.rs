//! The `--reason` lint of shell scripts: every direct heki write
//! (`heki append`, `heki upsert`, `heki delete`, `heki mark`) must name
//! why with `--reason`, anywhere in its invocation, continuation lines
//! (ending in `\`) included. Comment lines are not invocations.

use vstd::prelude::*;
use crate::parser::{source_lines, source_lines_exec};
use crate::text::{strings_view, tail, eq_str, chars_of, concat, contains_seq, contains_str, dec_str, ends_with, ends_with_str, join_exec, join_with, slice, starts_with, starts_with_str, string_of, trim_end, trim_end_exec, trim_start, trim_start_exec, u64_chars, utf8_len, utf8_width, views, words, words_exec};

verus! {

/// A comment line: `#` or `//` after leading whitespace.
pub open spec fn comment_line(line: Seq<char>) -> bool {
    let t = trim_start(line);
    starts_with(t, "#"@) || starts_with(t, "//"@)
}

/// The line holds a direct heki write.
pub open spec fn heki_write(line: Seq<char>) -> bool {
    contains_seq(line, "heki append"@) || contains_seq(line, "heki upsert"@) || contains_seq(
        line,
        "heki delete"@,
    ) || contains_seq(line, "heki mark"@)
}

/// The line continues on the next one: it ends in `\` (trailing
/// whitespace aside).
pub open spec fn continues(line: Seq<char>) -> bool {
    ends_with(trim_end(line), "\\"@)
}

/// The first line from `j` that does not continue, or the line count.
pub open spec fn invocation_end(lines: Seq<Seq<char>>, j: int) -> int
    decreases lines.len() - j,
{
    if 0 <= j < lines.len() && continues(lines[j]) {
        invocation_end(lines, j + 1)
    } else {
        j
    }
}

pub proof fn lemma_invocation_end(lines: Seq<Seq<char>>, j: int)
    requires
        0 <= j <= lines.len(),
    ensures
        j <= invocation_end(lines, j) <= lines.len(),
    decreases lines.len() - j,
{
    if j < lines.len() && continues(lines[j]) {
        lemma_invocation_end(lines, j + 1);
    }
}

/// The last line of the invocation starting at line `i`.
pub open spec fn invocation_last(lines: Seq<Seq<char>>, i: int) -> int {
    let j = invocation_end(lines, i);
    if j < lines.len() {
        j
    } else {
        lines.len() - 1
    }
}

/// The invocation starting at line `i`: its lines joined with spaces.
pub open spec fn invocation(lines: Seq<Seq<char>>, i: int) -> Seq<char> {
    join_with(lines.subrange(i, invocation_last(lines, i) + 1), " "@)
}

/// The first `n` bytes of `s` (from the prefix of `k` characters on),
/// when `n` falls between two characters.
pub open spec fn byte_prefix(s: Seq<char>, n: int, k: int) -> Option<Seq<char>>
    decreases s.len() - k,
{
    if k < 0 || k > s.len() {
        None
    } else if utf8_len(s.take(k)) == n {
        Some(s.take(k))
    } else if utf8_len(s.take(k)) > n || k == s.len() {
        None
    } else {
        byte_prefix(s, n, k + 1)
    }
}

/// How an invocation is shown: its words joined by single spaces, cut to
/// 120 bytes and marked `…` when longer; `None` where 120 bytes fall
/// inside a character, which cannot be cut.
pub open spec fn shown(joined: Seq<char>) -> Option<Seq<char>> {
    let d = join_with(words(joined), " "@);
    if utf8_len(d) > 120 {
        match byte_prefix(d, 120, 0) {
            Some(p) => Some(p + "…"@),
            None => None,
        }
    } else {
        Some(d)
    }
}

/// The complaints from line `i` on, one per write invocation without
/// `--reason`: `line N: <invocation>`; `None` where one cannot be shown.
pub open spec fn lint_from(lines: Seq<Seq<char>>, i: int) -> Option<Seq<Seq<char>>>
    decreases lines.len() - i,
{
    if i < 0 || i >= lines.len() {
        Some(Seq::empty())
    } else if comment_line(lines[i]) || !heki_write(lines[i]) {
        lint_from(lines, i + 1)
    } else {
        let j = invocation_end(lines, i);
        proof {
            lemma_invocation_end(lines, i);
        }
        let joined = invocation(lines, i);
        let rest = if j < lines.len() {
            lint_from(lines, j + 1)
        } else {
            Some(Seq::empty())
        };
        if contains_seq(joined, "--reason"@) {
            rest
        } else {
            match (shown(joined), rest) {
                (Some(d), Some(rest)) => Some(seq!["line "@ + dec_str((i + 1) as nat) + ": "@ + d] + rest),
                _ => None,
            }
        }
    }
}

fn char_width(c: char) -> (w: u128)
    ensures
        w == utf8_width(c),
{
    let u = c as u32;
    if u < 0x80 {
        1
    } else if u < 0x800 {
        2
    } else if u < 0x10000 {
        3
    } else {
        4
    }
}

proof fn lemma_utf8_len_take(s: Seq<char>, k: int)
    requires
        0 <= k < s.len(),
    ensures
        utf8_len(s.take(k + 1)) == utf8_len(s.take(k)) + utf8_width(s[k]),
{
    assert(s.take(k + 1).drop_last() =~= s.take(k));
}

proof fn lemma_utf8_len_ge(s: Seq<char>)
    ensures
        utf8_len(s) >= s.len(),
    decreases s.len(),
{
    if s.len() > 0 {
        lemma_utf8_len_ge(s.drop_last());
    }
}

/// How an invocation is shown; `None` where it cannot be cut.
fn shown_exec(joined: &Vec<char>) -> (r: Option<Vec<char>>)
    ensures
        match r {
            Some(v) => shown(joined@) == Some(v@),
            None => shown(joined@) is None,
        },
{
    let d = join_exec(&words_exec(joined), " ");
    let total = crate::text::utf8_len_exec(&d);
    if total <= 120 {
        return Some(d);
    }
    let mut k: usize = 0;
    let mut bytes: u128 = 0;
    assert(d@.take(0) =~= Seq::<char>::empty());
    while bytes < 120
        invariant
            k <= d.len(),
            bytes == utf8_len(d@.take(k as int)),
            bytes <= 120,
            byte_prefix(d@, 120, k as int) == byte_prefix(d@, 120, 0),
            utf8_len(d@) > 120,
            byte_prefix(d@, 120, 0) is None ==> shown(joined@) is None,
        decreases d.len() - k,
    {
        if k == d.len() {
            assert(d@.take(k as int) =~= d@);
            assert(false);
        }
        proof {
            lemma_utf8_len_take(d@, k as int);
        }
        bytes = bytes + char_width(d[k]);
        k = k + 1;
        if bytes > 120 {
            assert(byte_prefix(d@, 120, k as int) is None);
            return None;
        }
    }
    Some(concat(&slice(&d, 0, k), &chars_of("…")))
}

/// The `--reason` complaints of a shell script's text, `None` when every
/// direct heki write names its reason.
pub fn unreasoned_heki_writes(source: &str) -> (r: Option<Vec<String>>)
    requires
        lint_from(source_lines(source@), 0) is Some,
    ensures
        match r {
            Some(v) => lint_from(source_lines(source@), 0) == Some(crate::text::strings_view(v@))
                && v.len() > 0,
            None => lint_from(source_lines(source@), 0) == Some(Seq::<Seq<char>>::empty()),
        },
{
    match checked_unreasoned_heki_writes(source) {
        Some(found) => found,
        None => None,
    }
}

/// The same lint for every script: `None` where an invocation to be shown
/// has its 120th byte inside a character, which the lint cannot cut and
/// panics on; else `Some` of what `unreasoned_heki_writes` gives.
pub fn checked_unreasoned_heki_writes(source: &str) -> (r: Option<Option<Vec<String>>>)
    ensures
        match r {
            None => lint_from(source_lines(source@), 0) is None,
            Some(Some(v)) => lint_from(source_lines(source@), 0) == Some(
                crate::text::strings_view(v@),
            ) && v.len() > 0,
            Some(None) => lint_from(source_lines(source@), 0) == Some(Seq::<Seq<char>>::empty()),
        },
{
    let lines = source_lines_exec(&chars_of(source));
    let ghost lv = views(lines@);
    let n = lines.len();
    let mut out: Vec<String> = Vec::new();
    let mut i: usize = 0;
    proof {
        reveal_strlit("#");
        reveal_strlit("//");
        reveal_strlit("\\");
    }
    while i < n
        invariant
            i <= n,
            n == lines.len(),
            lv == views(lines@),
            lv == source_lines(source@),
            lint_from(lv, 0) is Some <==> lint_from(lv, i as int) is Some,
            lint_from(lv, i as int) is Some ==> lint_from(lv, 0)->0 == crate::text::strings_view(out@)
                + lint_from(lv, i as int)->0,
        decreases n - i,
    {
        let line = &lines[i];
        assert(lv[i as int] == line@);
        let t = trim_start_exec(line);
        if starts_with_str(&t, "#") || starts_with_str(&t, "//") || !(contains_str(line, "heki append")
            || contains_str(line, "heki upsert") || contains_str(line, "heki delete") || contains_str(
            line,
            "heki mark",
        )) {
            i = i + 1;
        } else {
            let mut joined = line.clone();
            let mut j: usize = i;
            proof {
                lemma_invocation_end(lv, i as int);
                assert(lv.subrange(i as int, i + 1) =~= seq![line@]);
            }
            while j < n && ends_with_str(&trim_end_exec(&lines[j]), "\\")
                invariant
                    i <= j <= n,
                    i < n,
                    n == lines.len(),
                    lv == views(lines@),
                    invocation_end(lv, j as int) == invocation_end(lv, i as int),
                    joined@ == join_with(
                        lv.subrange(i as int, (if j < n { j as int } else { n - 1 }) + 1),
                        " "@,
                    ),
                decreases n - j,
            {
                assert(lv[j as int] == lines@[j as int]@);
                j = j + 1;
                if j < n {
                    assert(lv[j as int] == lines@[j as int]@);
                    let ghost parts = lv.subrange(i as int, j + 1);
                    assert(parts.drop_last() =~= lv.subrange(i as int, j as int));
                    assert(parts.len() >= 2);
                    joined = concat(&concat(&joined, &chars_of(" ")), &lines[j]);
                }
            }
            proof {
                lemma_invocation_end(lv, i as int);
            }
            assert(joined@ == invocation(lv, i as int));
            if !contains_str(&joined, "--reason") {
                let shown_text = match shown_exec(&joined) {
                    Some(v) => v,
                    None => {
                        return None;
                    },
                };
                let msg = concat(
                    &concat(&concat(&chars_of("line "), &u64_chars((i + 1) as u64)), &chars_of(": ")),
                    &shown_text,
                );
                let ghost before = out@;
                out.push(string_of(&msg));
                assert(crate::text::strings_view(out@) =~= crate::text::strings_view(before).push(
                    msg@,
                ));
                let ghost next: int = if j < n { j + 1 } else { n as int };
                assert(lint_from(lv, next) is Some <==> lint_from(lv, i as int) is Some);
                proof {
                    if lint_from(lv, next) is Some {
                        assert(seq![msg@] + lint_from(lv, next)->0 == lint_from(lv, i as int)->0);
                        assert(crate::text::strings_view(before) + lint_from(lv, i as int)->0
                            =~= crate::text::strings_view(out@) + lint_from(lv, next)->0);
                    }
                }
            }
            i = if j < n { j + 1 } else { n };
        }
    }
    assert(lint_from(lv, i as int)->0 =~= Seq::<Seq<char>>::empty());
    assert(crate::text::strings_view(out@) + Seq::<Seq<char>>::empty() =~= crate::text::strings_view(out@));
    if out.len() == 0 {
        Some(None)
    } else {
        Some(Some(out))
    }
}

// ---------------------------------------------------------------------
// `--reason` on the command line
// ---------------------------------------------------------------------

/// What the arguments of a direct heki write say of its reason.
pub enum ReasonArgs {
    /// The reason (the last one given), and the other arguments in order.
    Given(String, Vec<String>),
    /// No `--reason` at all.
    Absent,
    /// `--reason` as the last argument, with no value after it.
    NoValue,
}

pub enum ReasonModel {
    Given(Seq<char>, Seq<Seq<char>>),
    Absent,
    NoValue,
}

impl View for ReasonArgs {
    type V = ReasonModel;

    open spec fn view(&self) -> ReasonModel {
        match self {
            ReasonArgs::Given(r, rest) => ReasonModel::Given(r@, strings_view(rest@)),
            ReasonArgs::Absent => ReasonModel::Absent,
            ReasonArgs::NoValue => ReasonModel::NoValue,
        }
    }
}

/// The reason scan from `args[i..]`: `--reason V` and `--reason=V` set
/// the reason (a later one replaces an earlier one) and are taken out;
/// every other argument is kept.
pub open spec fn reason_from(
    args: Seq<Seq<char>>,
    i: int,
    reason: Option<Seq<char>>,
    kept: Seq<Seq<char>>,
) -> ReasonModel
    decreases args.len() - i,
{
    if i < 0 || i >= args.len() {
        match reason {
            Some(r) => ReasonModel::Given(r, kept),
            None => ReasonModel::Absent,
        }
    } else if args[i] == "--reason"@ {
        if i + 1 < args.len() {
            reason_from(args, i + 2, Some(args[i + 1]), kept)
        } else {
            ReasonModel::NoValue
        }
    } else if starts_with(args[i], "--reason="@) {
        reason_from(args, i + 1, Some(args[i].subrange(9, args[i].len() as int)), kept)
    } else {
        reason_from(args, i + 1, reason, kept.push(args[i]))
    }
}

/// Takes the `--reason` out of a direct heki write's arguments.
pub fn extract_reason(rest: &Vec<String>) -> (r: ReasonArgs)
    ensures
        r@ == reason_from(strings_view(rest@), 0, None, Seq::empty()),
{
    let ghost av = strings_view(rest@);
    let n = rest.len();
    let mut reason: Option<Vec<char>> = None;
    let mut kept: Vec<String> = Vec::new();
    let mut i: usize = 0;
    proof {
        reveal_strlit("--reason=");
    }
    assert(strings_view(kept@) =~= Seq::<Seq<char>>::empty());
    while i < n
        invariant
            i <= n,
            n == rest.len(),
            av == strings_view(rest@),
            av.len() == n,
            "--reason="@.len() == 9,
            reason_from(av, i as int, match reason {
                Some(v) => Some(v@),
                None => None,
            }, strings_view(kept@)) == reason_from(av, 0, None, Seq::empty()),
        decreases n - i,
    {
        let a = chars_of(rest[i].as_str());
        assert(av[i as int] == a@);
        if eq_str(&a, "--reason") {
            if i + 1 >= n {
                return ReasonArgs::NoValue;
            }
            assert(av[i + 1] == rest@[i + 1]@);
            reason = Some(chars_of(rest[i + 1].as_str()));
            i = i + 2;
        } else if starts_with_str(&a, "--reason=") {
            reason = Some(tail(&a, 9));
            i = i + 1;
        } else {
            let ghost before = kept@;
            kept.push(string_of(&a));
            assert(strings_view(kept@) =~= strings_view(before).push(a@));
            i = i + 1;
        }
    }
    match reason {
        Some(v) => ReasonArgs::Given(string_of(&v), kept),
        None => ReasonArgs::Absent,
    }
}

} // verus!

//! String extraction and DSL pattern matching for Bluebook lines: the
//! primitives the block parsers are built from.

use vstd::prelude::*;
use crate::text::{Stop, char_is_lowercase, char_is_uppercase, char_lower_head, chars_of, contains_char, contains_char_exec, contains_seq, contains_str, ends_with, ends_with_char, ends_with_str, eq_str, find_char, find_char_exec, find_char_from, find_char_from_exec, find_seq, find_seq_from_exec, find_str, is_digit, is_lower, is_upper, lemma_find_char_from, lemma_find_seq_from, lines_of, lower_head, occurs_at_exec, opt_string, rfind_char, rfind_char_exec, scan, scan_exec, slice, starts_with, starts_with_char, starts_with_str, string_of, strs_view, tail, take_until, take_until_exec, trim, trim_end, trim_end_exec, trim_exec, trim_start, trim_start_exec, views};
use crate::ir::{Attribute, AttributeModel, Cardinality, Reference, ReferenceKind, ReferenceModel, group_views, opt_view, reference_model};

verus! {

broadcast use crate::ir::group_views;

// ---------------------------------------------------------------------
// String literals
// ---------------------------------------------------------------------

/// The character an escape `\c` stands for: `\n`, `\t`, `\r`, `\0` are
/// control characters; any other `\c` (including `\"` and `\\`) is `c`.
pub open spec fn unescape_char(c: char) -> char {
    if c == 'n' {
        '\n'
    } else if c == 't' {
        '\t'
    } else if c == 'r' {
        '\r'
    } else if c == '0' {
        '\0'
    } else {
        c
    }
}

pub fn unescape_char_exec(c: char) -> (r: char)
    ensures
        r == unescape_char(c),
{
    if c == 'n' {
        '\n'
    } else if c == 't' {
        '\t'
    } else if c == 'r' {
        '\r'
    } else if c == '0' {
        '\0'
    } else {
        c
    }
}

pub open spec fn cons(c: char, x: Option<Seq<char>>) -> Option<Seq<char>> {
    match x {
        Some(r) => Some(seq![c] + r),
        None => None,
    }
}

pub open spec fn prepend(o: Seq<char>, x: Option<Seq<char>>) -> Option<Seq<char>> {
    match x {
        Some(r) => Some(o + r),
        None => None,
    }
}

pub proof fn lemma_prepend_push(o: Seq<char>, c: char, x: Option<Seq<char>>)
    ensures
        prepend(o.push(c), x) == prepend(o, cons(c, x)),
{
    if let Some(r) = x {
        assert(o.push(c) + r =~= o + (seq![c] + r));
    }
}

/// The unescaped body of a string literal whose content starts at `i`,
/// up to (not including) its closing quote; `None` when it never closes.
pub open spec fn unescape_from(s: Seq<char>, i: int) -> Option<Seq<char>>
    decreases s.len() - i,
{
    if i < 0 || i >= s.len() {
        None
    } else if s[i] == '\\' {
        if i + 1 >= s.len() {
            None
        } else {
            cons(unescape_char(s[i + 1]), unescape_from(s, i + 2))
        }
    } else if s[i] == '"' {
        Some(Seq::empty())
    } else {
        cons(s[i], unescape_from(s, i + 1))
    }
}

pub fn unescape_from_exec(s: &Vec<char>, start: usize) -> (r: Option<Vec<char>>)
    ensures
        opt_view(r) == unescape_from(s@, start as int),
{
    let mut out: Vec<char> = Vec::new();
    let mut i = start;
    assert(out@ + Seq::<char>::empty() =~= out@);
    proof {
        if let Some(x) = unescape_from(s@, start as int) {
            assert(Seq::<char>::empty() + x =~= x);
        }
    }
    while i < s.len()
        invariant
            start <= i,
            prepend(out@, unescape_from(s@, i as int)) == unescape_from(s@, start as int),
        decreases s.len() - i,
    {
        let c = s[i];
        if c == '\\' {
            if i + 1 >= s.len() {
                return None;
            }
            let e = unescape_char_exec(s[i + 1]);
            proof { lemma_prepend_push(out@, e, unescape_from(s@, i + 2)); }
            out.push(e);
            i = i + 2;
        } else if c == '"' {
            assert(out@ + Seq::<char>::empty() =~= out@);
            return Some(out);
        } else {
            proof { lemma_prepend_push(out@, c, unescape_from(s@, i + 1)); }
            out.push(c);
            i = i + 1;
        }
    }
    None
}

/// `extract_string`'s result: the unescaped content of the first `"..."`
/// literal on the line.
pub open spec fn string_literal(s: Seq<char>) -> Option<Seq<char>> {
    match find_char(s, '"') {
        Some(k) => unescape_from(s, k + 1),
        None => None,
    }
}

pub fn extract_string_chars(s: &Vec<char>) -> (r: Option<Vec<char>>)
    ensures
        opt_view(r) == string_literal(s@),
{
    match find_char_exec(s, '"') {
        Some(k) => unescape_from_exec(s, k + 1),
        None => None,
    }
}

/// Extract a `"..."` string literal from `line`, respecting backslash
/// escapes inside the quotes; the content is returned unescaped.
pub fn extract_string(line: &str) -> (r: Option<String>)
    ensures
        opt_view(r) == string_literal(line@),
{
    let s = chars_of(line);
    let v = extract_string_chars(&s);
    opt_string(&v)
}

/// `keyword` followed by `:`.
pub open spec fn kwarg_marker(keyword: Seq<char>) -> Seq<char> {
    keyword.push(':')
}

/// The string literal after the first `keyword:` on the line.
pub open spec fn kwarg_string(s: Seq<char>, keyword: Seq<char>) -> Option<Seq<char>> {
    match find_seq(s, kwarg_marker(keyword)) {
        Some(i) => string_literal(s.subrange(i + keyword.len() + 1, s.len() as int)),
        None => None,
    }
}

pub fn extract_kwarg_string_chars(s: &Vec<char>, keyword: &Vec<char>) -> (r: Option<Vec<char>>)
    ensures
        opt_view(r) == kwarg_string(s@, keyword@),
{
    let mut marker = keyword.clone();
    marker.push(':');
    match find_seq_from_exec(s, &marker, 0) {
        Some(i) => {
            proof { lemma_find_seq_from(s@, marker@, 0); }
            let rest = tail(s, i + marker.len());
            extract_string_chars(&rest)
        },
        None => None,
    }
}

/// Extract the quoted value of a `keyword: "..."` argument from one line.
pub fn extract_kwarg_string(line: &str, keyword: &str) -> (r: Option<String>)
    ensures
        opt_view(r) == kwarg_string(line@, keyword@),
{
    let s = chars_of(line);
    let k = chars_of(keyword);
    let v = extract_kwarg_string_chars(&s, &k);
    opt_string(&v)
}

// ---------------------------------------------------------------------
// Literals spanning several physical lines
// ---------------------------------------------------------------------

/// One physical line's part of a string literal whose content starts at
/// `i`: the unescaped characters read, and whether the literal closed.
/// A backslash at the very end of the line ends the line's part.
pub open spec fn literal_segment(s: Seq<char>, i: int) -> (Seq<char>, bool)
    decreases s.len() - i,
{
    if i < 0 || i >= s.len() {
        (Seq::empty(), false)
    } else if s[i] == '\\' {
        if i + 1 >= s.len() {
            (Seq::empty(), false)
        } else {
            let r = literal_segment(s, i + 2);
            (seq![unescape_char(s[i + 1])] + r.0, r.1)
        }
    } else if s[i] == '"' {
        (Seq::empty(), true)
    } else {
        let r = literal_segment(s, i + 1);
        (seq![s[i]] + r.0, r.1)
    }
}

/// Reads a literal across lines from `lines[idx]` (whose unread part is
/// `seg`), `acc` holding what was read so far: the content (None when the
/// input ends first) and the number of lines consumed counted from `start`.
pub open spec fn spanning_walk(
    lines: Seq<Seq<char>>,
    start: int,
    idx: int,
    seg: Seq<char>,
    acc: Seq<char>,
) -> (Option<Seq<char>>, int)
    decreases lines.len() - idx,
{
    let r = literal_segment(seg, 0);
    let acc2 = acc + r.0;
    if r.1 {
        (Some(acc2), idx - start + 1)
    } else if idx + 1 >= lines.len() || idx + 1 < 0 {
        (None, idx - start + 1)
    } else {
        spanning_walk(lines, start, idx + 1, lines[idx + 1], acc2.push('\n'))
    }
}

/// `extract_string_spanning`'s result.
pub open spec fn string_spanning(lines: Seq<Seq<char>>, start: int) -> (Option<Seq<char>>, int) {
    let first = lines[start];
    match find_char(first, '"') {
        None => (None, 1),
        Some(k) => spanning_walk(lines, start, start, first.subrange(k + 1, first.len() as int), Seq::empty()),
    }
}

/// Appends one physical line's part of a literal to `out`.
fn literal_segment_exec(seg: &Vec<char>, out: &mut Vec<char>) -> (closed: bool)
    ensures
        final(out)@ == old(out)@ + literal_segment(seg@, 0).0,
        closed == literal_segment(seg@, 0).1,
{
    let mut i: usize = 0;
    assert(old(out)@ =~= old(out)@ + Seq::<char>::empty());
    while i < seg.len()
        invariant
            out@ + literal_segment(seg@, i as int).0 == old(out)@ + literal_segment(seg@, 0).0,
            literal_segment(seg@, i as int).1 == literal_segment(seg@, 0).1,
        decreases seg.len() - i,
    {
        let c = seg[i];
        if c == '\\' {
            if i + 1 >= seg.len() {
                assert(out@ + Seq::<char>::empty() =~= out@);
                return false;
            }
            let e = unescape_char_exec(seg[i + 1]);
            let ghost r = literal_segment(seg@, i + 2);
            assert(out@.push(e) + r.0 =~= out@ + (seq![e] + r.0));
            out.push(e);
            i = i + 2;
        } else if c == '"' {
            assert(out@ + Seq::<char>::empty() =~= out@);
            return true;
        } else {
            let ghost r = literal_segment(seg@, i + 1);
            assert(out@.push(c) + r.0 =~= out@ + (seq![c] + r.0));
            out.push(c);
            i = i + 1;
        }
    }
    assert(out@ + Seq::<char>::empty() =~= out@);
    false
}

pub fn extract_string_spanning_chars(lines: &Vec<Vec<char>>, start: usize) -> (r: (Option<Vec<char>>, usize))
    requires
        start < lines.len(),
    ensures
        (opt_view(r.0), r.1 as int) == string_spanning(views(lines@), start as int),
{
    let first = &lines[start];
    let open = match find_char_exec(first, '"') {
        Some(p) => p + 1,
        None => return (None, 1),
    };
    proof { lemma_find_char_from(first@, '"', 0); }
    let mut out: Vec<char> = Vec::new();
    let mut idx = start;
    let mut segment = tail(first, open);
    assert(views(lines@)[start as int] == first@);
    loop
        invariant
            start <= idx < lines.len(),
            spanning_walk(views(lines@), start as int, idx as int, segment@, out@)
                == string_spanning(views(lines@), start as int),
        decreases lines.len() - idx,
    {
        let ghost before = out@;
        let closed = literal_segment_exec(&segment, &mut out);
        let consumed = idx - start + 1;
        if closed {
            return (Some(out), consumed);
        }
        idx = idx + 1;
        if idx >= lines.len() {
            return (None, consumed);
        }
        out.push('\n');
        segment = lines[idx].clone();
        assert(views(lines@)[idx as int] == segment@);
    }
}

/// Extract a possibly multi-line `"..."` literal beginning on
/// `lines[start]`: the unescaped content and the number of lines consumed.
pub fn extract_string_spanning(lines: &[&str], start: usize) -> (r: (Option<String>, usize))
    requires
        start < lines.len(),
    ensures
        (opt_view(r.0), r.1 as int) == string_spanning(strs_view(lines@), start as int),
{
    let ls = lines_of(lines);
    let (v, n) = extract_string_spanning_chars(&ls, start);
    (opt_string(&v), n)
}

// ---------------------------------------------------------------------
// Comments
// ---------------------------------------------------------------------

/// Index of the first `#` outside a string literal, scanning from `i` with
/// `in_str` the current quote state and `prev` the previous character. A
/// `"` toggles the quote state unless the previous character is `\`.
pub open spec fn comment_start(s: Seq<char>, i: int, in_str: bool, prev: char) -> Option<int>
    decreases s.len() - i,
{
    if i < 0 || i >= s.len() {
        None
    } else if s[i] == '"' && prev != '\\' {
        comment_start(s, i + 1, !in_str, s[i])
    } else if s[i] == '#' && !in_str {
        Some(i)
    } else {
        comment_start(s, i + 1, in_str, s[i])
    }
}

pub proof fn lemma_comment_start(s: Seq<char>, i: int, in_str: bool, prev: char)
    requires
        0 <= i,
    ensures
        comment_start(s, i, in_str, prev) matches Some(k) ==> i <= k < s.len(),
    decreases s.len() - i,
{
    if 0 <= i < s.len() {
        if s[i] == '"' && prev != '\\' {
            lemma_comment_start(s, i + 1, !in_str, s[i]);
        } else if !(s[i] == '#' && !in_str) {
            lemma_comment_start(s, i + 1, in_str, s[i]);
        }
    }
}

/// The line without a trailing comment: cut before the first `#` outside a
/// string literal and trailing whitespace trimmed; unchanged when there is none.
pub open spec fn without_comment(s: Seq<char>) -> Seq<char> {
    match comment_start(s, 0, false, '\0') {
        Some(k) => trim_end(s.subrange(0, k)),
        None => s,
    }
}

pub fn strip_trailing_comment_chars(s: &Vec<char>) -> (r: Vec<char>)
    ensures
        r@ == without_comment(s@),
{
    proof { lemma_comment_start(s@, 0, false, '\0'); }
    let mut in_str = false;
    let mut prev = '\0';
    let mut i: usize = 0;
    while i < s.len()
        invariant
            comment_start(s@, i as int, in_str, prev) == comment_start(s@, 0, false, '\0'),
        decreases s.len() - i,
    {
        let c = s[i];
        if c == '"' && prev != '\\' {
            in_str = !in_str;
        } else if c == '#' && !in_str {
            let head = slice(s, 0, i);
            return trim_end_exec(&head);
        }
        prev = c;
        i = i + 1;
    }
    s.clone()
}

/// Strip a trailing line comment: everything from the first `#` outside a
/// string literal, then trailing whitespace. Lines without one are unchanged.
pub fn strip_trailing_comment(line: &str) -> (r: String)
    ensures
        r@ == without_comment(line@),
{
    let s = chars_of(line);
    let v = strip_trailing_comment_chars(&s);
    string_of(&v)
}

// ---------------------------------------------------------------------
// Second string
// ---------------------------------------------------------------------

/// Index just past the closing quote of the literal whose content starts
/// at `i` (a backslash skips the next character), or the line's end.
pub open spec fn past_literal(s: Seq<char>, i: int) -> int
    decreases s.len() - i,
{
    if i < 0 || i >= s.len() {
        i
    } else if s[i] == '\\' && i + 1 < s.len() {
        past_literal(s, i + 2)
    } else if s[i] == '"' {
        i + 1
    } else {
        past_literal(s, i + 1)
    }
}

pub proof fn lemma_past_literal(s: Seq<char>, i: int)
    requires
        0 <= i <= s.len(),
    ensures
        i <= past_literal(s, i) <= s.len(),
    decreases s.len() - i,
{
    if i < s.len() {
        if s[i] == '\\' && i + 1 < s.len() {
            lemma_past_literal(s, i + 2);
        } else if s[i] != '"' {
            lemma_past_literal(s, i + 1);
        }
    }
}

/// `extract_second_string`'s result: the unescaped second literal.
pub open spec fn second_literal(s: Seq<char>) -> Option<Seq<char>> {
    match find_char(s, '"') {
        None => None,
        Some(k) => match find_char_from(s, '"', past_literal(s, k + 1)) {
            None => None,
            Some(j) => unescape_from(s, j + 1),
        },
    }
}

pub fn extract_second_string_chars(s: &Vec<char>) -> (r: Option<Vec<char>>)
    ensures
        opt_view(r) == second_literal(s@),
{
    let first_open = match find_char_exec(s, '"') {
        Some(k) => k + 1,
        None => return None,
    };
    proof { lemma_find_char_from(s@, '"', 0); lemma_past_literal(s@, first_open as int); }
    let mut idx = first_open;
    let mut done = false;
    while !done && idx < s.len()
        invariant
            first_open <= idx <= s.len(),
            done ==> idx == past_literal(s@, first_open as int),
            !done ==> past_literal(s@, idx as int) == past_literal(s@, first_open as int),
        decreases s.len() - idx,
    {
        let b = s[idx];
        if b == '\\' && idx + 1 < s.len() {
            idx = idx + 2;
        } else if b == '"' {
            idx = idx + 1;
            done = true;
        } else {
            idx = idx + 1;
        }
    }
    match find_char_from_exec(s, '"', idx) {
        Some(j) => {
            proof { lemma_find_char_from(s@, '"', idx as int); }
            unescape_from_exec(s, j + 1)
        },
        None => None,
    }
}

/// The unescaped second string of `"Name", "Description"` shapes.
pub fn extract_second_string(line: &str) -> (r: Option<String>)
    ensures
        opt_view(r) == second_literal(line@),
{
    let s = chars_of(line);
    let v = extract_second_string_chars(&s);
    opt_string(&v)
}


// ---------------------------------------------------------------------
// Symbols, words, blocks
// ---------------------------------------------------------------------

/// `Some(s)` unless `s` is empty.
pub open spec fn nonempty(s: Seq<char>) -> Option<Seq<char>> {
    if s.len() == 0 {
        None
    } else {
        Some(s)
    }
}

pub fn nonempty_exec(v: Vec<char>) -> (r: Option<Vec<char>>)
    ensures
        opt_view(r) == nonempty(v@),
{
    if v.len() == 0 {
        None
    } else {
        Some(v)
    }
}

/// The identifier after the first `:` of the line, trimmed; `None` when
/// there is no `:` or no identifier after it.
pub open spec fn symbol_of(s: Seq<char>) -> Option<Seq<char>> {
    match find_char(s, ':') {
        Some(k) => nonempty(trim(take_until(s.subrange(k + 1, s.len() as int), Stop::NonIdent))),
        None => None,
    }
}

pub fn extract_symbol_chars(s: &Vec<char>) -> (r: Option<Vec<char>>)
    ensures
        opt_view(r) == symbol_of(s@),
{
    match find_char_exec(s, ':') {
        Some(k) => {
            let rest = tail(s, k + 1);
            let word = take_until_exec(&rest, &Stop::NonIdent);
            let t = trim_exec(&word);
            nonempty_exec(t)
        },
        None => None,
    }
}

/// The symbol name after the first `:` of the line.
pub fn extract_symbol(line: &str) -> (r: Option<String>)
    ensures
        opt_view(r) == symbol_of(line@),
{
    let s = chars_of(line);
    let v = extract_symbol_chars(&s);
    opt_string(&v)
}

/// The word (identifier characters and `:`) after the first occurrence of
/// `keyword`, whitespace skipped.
pub open spec fn word_after(s: Seq<char>, keyword: Seq<char>) -> Option<Seq<char>> {
    match find_seq(s, keyword) {
        Some(k) => nonempty(
            trim(take_until(trim(s.subrange(k + keyword.len(), s.len() as int)), Stop::NonWord)),
        ),
        None => None,
    }
}

pub fn extract_word_after_chars(s: &Vec<char>, keyword: &Vec<char>) -> (r: Option<Vec<char>>)
    ensures
        opt_view(r) == word_after(s@, keyword@),
{
    match find_seq_from_exec(s, keyword, 0) {
        Some(k) => {
            let rest = tail(s, k + keyword.len());
            let rest = trim_exec(&rest);
            let word = take_until_exec(&rest, &Stop::NonWord);
            let t = trim_exec(&word);
            nonempty_exec(t)
        },
        None => None,
    }
}

pub fn extract_word_after(line: &str, keyword: &str) -> (r: Option<String>)
    ensures
        opt_view(r) == word_after(line@, keyword@),
{
    let s = chars_of(line);
    let k = chars_of(keyword);
    let v = extract_word_after_chars(&s, &k);
    opt_string(&v)
}

/// The block text is `line[start..end]`, with `start` one past the first
/// `{` and `end` the last `}`: a slice that cannot be taken when the last
/// `}` comes before the first `{`.
pub open spec fn block_panics(s: Seq<char>) -> bool {
    match (find_char(s, '{'), rfind_char(s, '}')) {
        (Some(a), Some(b)) => b < a + 1,
        _ => false,
    }
}

pub fn block_panics_exec(s: &Vec<char>) -> (r: bool)
    ensures
        r == block_panics(s@),
{
    match (find_char_exec(s, '{'), rfind_char_exec(s, '}')) {
        (Some(a), Some(b)) => b < a + 1,
        _ => false,
    }
}

/// The trimmed text between the first `{` and the last `}`.
pub open spec fn block_of(s: Seq<char>) -> Option<Seq<char>> {
    match (find_char(s, '{'), rfind_char(s, '}')) {
        (Some(a), Some(b)) => if b < a + 1 {
            None
        } else {
            Some(trim(s.subrange(a + 1, b)))
        },
        _ => None,
    }
}

pub fn block_of_exec(s: &Vec<char>) -> (r: Option<Vec<char>>)
    ensures
        opt_view(r) == block_of(s@),
{
    let a = match find_char_exec(s, '{') {
        Some(a) => a,
        None => return None,
    };
    let b = match rfind_char_exec(s, '}') {
        Some(b) => b,
        None => return None,
    };
    if b < a + 1 {
        return None;
    }
    let inner = slice(s, a + 1, b);
    Some(trim_exec(&inner))
}

/// The trimmed text between the first `{` and the last `}`.
pub fn extract_block(line: &str) -> (r: Option<String>)
    requires
        !block_panics(line@),
    ensures
        opt_view(r) == block_of(line@),
{
    let s = chars_of(line);
    let v = block_of_exec(&s);
    opt_string(&v)
}

/// Index one past the last character at or before `j` that is neither a
/// comma nor a space.
pub open spec fn back_comma_space(s: Seq<char>, j: int) -> int
    decreases j,
{
    if 0 < j <= s.len() && (s[j - 1] == ',' || s[j - 1] == ' ') {
        back_comma_space(s, j - 1)
    } else {
        j
    }
}

/// `trim_end_matches([',', ' '])`.
pub open spec fn strip_commas_spaces(s: Seq<char>) -> Seq<char> {
    s.subrange(0, back_comma_space(s, s.len() as int))
}

pub proof fn lemma_back_comma_space(s: Seq<char>, j: int)
    requires
        0 <= j <= s.len(),
    ensures
        0 <= back_comma_space(s, j) <= j,
    decreases j,
{
    if j > 0 && (s[j - 1] == ',' || s[j - 1] == ' ') {
        lemma_back_comma_space(s, j - 1);
    }
}

pub fn strip_commas_spaces_exec(s: &Vec<char>) -> (r: Vec<char>)
    ensures
        r@ == strip_commas_spaces(s@),
{
    proof { lemma_back_comma_space(s@, s@.len() as int); }
    let mut j = s.len();
    while j > 0 && (s[j - 1] == ',' || s[j - 1] == ' ')
        invariant
            j <= s.len(),
            back_comma_space(s@, j as int) == back_comma_space(s@, s@.len() as int),
        decreases j,
    {
        j = j - 1;
    }
    slice(s, 0, j)
}

/// Everything after the first `keyword`, trimmed, trailing commas and
/// spaces dropped.
pub open spec fn after_keyword(s: Seq<char>, keyword: Seq<char>) -> Option<Seq<char>> {
    match find_seq(s, keyword) {
        Some(k) => Some(strip_commas_spaces(trim(s.subrange(k + keyword.len(), s.len() as int)))),
        None => None,
    }
}

pub fn extract_after_chars(s: &Vec<char>, keyword: &Vec<char>) -> (r: Option<Vec<char>>)
    ensures
        opt_view(r) == after_keyword(s@, keyword@),
{
    match find_seq_from_exec(s, keyword, 0) {
        Some(k) => {
            let rest = tail(s, k + keyword.len());
            let rest = trim_exec(&rest);
            Some(strip_commas_spaces_exec(&rest))
        },
        None => None,
    }
}

pub fn extract_after(line: &str, keyword: &str) -> (r: Option<String>)
    ensures
        opt_view(r) == after_keyword(line@, keyword@),
{
    let s = chars_of(line);
    let k = chars_of(keyword);
    let v = extract_after_chars(&s, &k);
    opt_string(&v)
}

/// A state token: a quoted string literal, or a bare token (`true`,
/// `false`, `:symbol` with its colon dropped) of identifier characters.
pub open spec fn state_token(text: Seq<char>) -> Option<Seq<char>> {
    let t = trim_start(text);
    if t.len() > 0 && t[0] == '"' {
        string_literal(t)
    } else {
        let body = if t.len() > 0 && t[0] == ':' {
            t.drop_first()
        } else {
            t
        };
        nonempty(trim(take_until(body, Stop::NonIdent)))
    }
}

pub fn extract_state_token_chars(text: &Vec<char>) -> (r: Option<Vec<char>>)
    ensures
        opt_view(r) == state_token(text@),
{
    let t = trim_start_exec(text);
    if starts_with_char(&t, '"') {
        return extract_string_chars(&t);
    }
    let body = if starts_with_char(&t, ':') {
        tail(&t, 1)
    } else {
        t
    };
    proof {
        if t@.len() > 0 && t@[0] == ':' {
            assert(t@.subrange(1, t@.len() as int) =~= t@.drop_first());
        }
    }
    let word = take_until_exec(&body, &Stop::NonIdent);
    let w = trim_exec(&word);
    nonempty_exec(w)
}

/// Extract a state token: either a quoted "string" or a bare token.
pub fn extract_state_token(text: &str) -> (r: Option<String>)
    ensures
        opt_view(r) == state_token(text@),
{
    let s = chars_of(text);
    let v = extract_state_token_chars(&s);
    opt_string(&v)
}

/// Does the (trimmed) line open a `do` block: ends with ` do` or is `do`,
/// optionally followed by a `|args|` list; never for a `#` comment line.
pub open spec fn opens_do_block(line: Seq<char>) -> bool {
    let t = trim(line);
    if t.len() > 0 && t[0] == '#' {
        false
    } else if ends_with(t, " do"@) || t == "do"@ {
        true
    } else if t.len() > 0 && t.last() == '|' {
        match rfind_char(t.drop_last(), '|') {
            Some(open) => {
                let head = trim_end(t.subrange(0, open));
                ends_with(head, " do"@) || head == "do"@
            },
            None => false,
        }
    } else {
        false
    }
}

pub fn ends_with_do_block_chars(line: &Vec<char>) -> (r: bool)
    ensures
        r == opens_do_block(line@),
{
    let t = trim_exec(line);
    if starts_with_char(&t, '#') {
        return false;
    }
    if ends_with_str(&t, " do") || eq_str(&t, "do") {
        return true;
    }
    if ends_with_char(&t, '|') {
        let without_bar = slice(&t, 0, t.len() - 1);
        assert(without_bar@ =~= t@.drop_last());
        match rfind_char_exec(&without_bar, '|') {
            Some(open) => {
                let h = slice(&t, 0, open);
                let head = trim_end_exec(&h);
                return ends_with_str(&head, " do") || eq_str(&head, "do");
            },
            None => return false,
        }
    }
    false
}

/// Check if line ends with ` do` (with optional block-arg list `|arg, ...|`).
/// Commented lines are never block-openers.
pub fn ends_with_do_block(line: &str) -> (r: bool)
    ensures
        r == opens_do_block(line@),
{
    let s = chars_of(line);
    ends_with_do_block_chars(&s)
}

/// The symbol value of a `kwarg: :symbol` pair.
pub open spec fn kwarg_symbol(s: Seq<char>, kwarg: Seq<char>) -> Option<Seq<char>> {
    match find_seq(s, kwarg_marker(kwarg)) {
        Some(k) => {
            let rest = trim_start(s.subrange(k + kwarg.len() + 1, s.len() as int));
            if rest.len() > 0 && rest[0] == ':' {
                nonempty(trim(take_until(rest.drop_first(), Stop::NonIdent)))
            } else {
                None
            }
        },
        None => None,
    }
}

pub fn extract_kwarg_symbol_chars(s: &Vec<char>, kwarg: &Vec<char>) -> (r: Option<Vec<char>>)
    ensures
        opt_view(r) == kwarg_symbol(s@, kwarg@),
{
    let mut needle = kwarg.clone();
    needle.push(':');
    match find_seq_from_exec(s, &needle, 0) {
        Some(k) => {
            let rest = tail(s, k + needle.len());
            let rest = trim_start_exec(&rest);
            if !starts_with_char(&rest, ':') {
                return None;
            }
            let body = tail(&rest, 1);
            assert(body@ =~= rest@.drop_first());
            let word = take_until_exec(&body, &Stop::NonIdent);
            let w = trim_exec(&word);
            nonempty_exec(w)
        },
        None => None,
    }
}

/// Extract a `kwarg: :symbol_name` pair from a DSL line.
pub fn extract_kwarg_symbol(line: &str, kwarg: &str) -> (r: Option<String>)
    ensures
        opt_view(r) == kwarg_symbol(line@, kwarg@),
{
    let s = chars_of(line);
    let k = chars_of(kwarg);
    let v = extract_kwarg_symbol_chars(&s, &k);
    opt_string(&v)
}

// ---------------------------------------------------------------------
// snake_case
// ---------------------------------------------------------------------

/// An underscore goes before the uppercase letter at `i` when the previous
/// letter is lowercase or a digit (a word boundary), or when the previous
/// letter is uppercase and the next is lowercase (the end of an acronym).
pub open spec fn snake_boundary(s: Seq<char>, i: int) -> bool {
    0 < i < s.len() && is_upper(s[i]) && (is_lower(s[i - 1]) || is_digit(s[i - 1]) || (is_upper(
        s[i - 1],
    ) && i + 1 < s.len() && is_lower(s[i + 1])))
}

/// The output for the character at `i`.
pub open spec fn snake_piece(s: Seq<char>, i: int) -> Seq<char> {
    if snake_boundary(s, i) {
        seq!['_', lower_head(s[i])]
    } else {
        seq![lower_head(s[i])]
    }
}

/// The output for the first `n` characters.
pub open spec fn snake_upto(s: Seq<char>, n: int) -> Seq<char>
    decreases n,
{
    if n <= 0 {
        Seq::empty()
    } else {
        snake_upto(s, n - 1) + snake_piece(s, n - 1)
    }
}

/// `to_snake_case`'s result.
pub open spec fn snake(s: Seq<char>) -> Seq<char> {
    snake_upto(s, s.len() as int)
}

pub fn to_snake_case_chars(s: &Vec<char>) -> (r: Vec<char>)
    ensures
        r@ == snake(s@),
{
    let mut out: Vec<char> = Vec::new();
    let mut i: usize = 0;
    while i < s.len()
        invariant
            i <= s.len(),
            out@ == snake_upto(s@, i as int),
        decreases s.len() - i,
    {
        let c = s[i];
        let ghost before = out@;
        if i > 0 && char_is_uppercase(c) {
            let prev = s[i - 1];
            let prev_lower = char_is_lowercase(prev) || ('0' <= prev && prev <= '9');
            let acronym_end = char_is_uppercase(prev) && i + 1 < s.len() && char_is_lowercase(s[i + 1]);
            if prev_lower || acronym_end {
                out.push('_');
            }
        }
        let l = char_lower_head(c);
        out.push(l);
        assert(out@ =~= before + snake_piece(s@, i as int));
        i = i + 1;
    }
    out
}

/// Convert a string to snake_case, treating a run of capitals as one
/// acronym: `DNAProfile` becomes `dna_profile`, `APIEndpoint` becomes
/// `api_endpoint`.
pub fn to_snake_case(s: &str) -> (r: String)
    ensures
        r@ == snake(s@),
{
    let v = chars_of(s);
    let o = to_snake_case_chars(&v);
    string_of(&o)
}

/// A string with no uppercase letter, each of whose characters is its own
/// lowercase mapping, is already snake_case: `to_snake_case` leaves it as it is.
pub proof fn law_snake_case_keeps_lowercase(s: Seq<char>)
    requires
        forall|i: int| 0 <= i < s.len() ==> !is_upper(#[trigger] s[i]) && lower_head(s[i]) == s[i],
    ensures
        snake(s) == s,
{
    lemma_snake_keeps_lowercase_upto(s, s.len() as int);
    assert(s.subrange(0, s.len() as int) =~= s);
}

proof fn lemma_snake_keeps_lowercase_upto(s: Seq<char>, n: int)
    requires
        0 <= n <= s.len(),
        forall|i: int| 0 <= i < s.len() ==> !is_upper(#[trigger] s[i]) && lower_head(s[i]) == s[i],
    ensures
        snake_upto(s, n) == s.subrange(0, n),
    decreases n,
{
    if n > 0 {
        lemma_snake_keeps_lowercase_upto(s, n - 1);
        assert(!is_upper(s[n - 1]));
        assert(s.subrange(0, n - 1) + seq![s[n - 1]] =~= s.subrange(0, n));
    } else {
        assert(s.subrange(0, 0) =~= Seq::<char>::empty());
    }
}

/// `to_snake_case` emits one character per input character plus at most
/// one underscore before each: the output is never shorter than the input
/// and at most twice as long.
pub proof fn law_snake_case_length(s: Seq<char>)
    ensures
        s.len() <= snake(s).len() <= 2 * s.len(),
{
    lemma_snake_len(s, s.len() as int);
}

proof fn lemma_snake_len(s: Seq<char>, n: int)
    requires
        0 <= n <= s.len(),
    ensures
        n <= snake_upto(s, n).len() <= 2 * n,
    decreases n,
{
    if n > 0 {
        lemma_snake_len(s, n - 1);
    }
}


// ---------------------------------------------------------------------
// Shorthand syntax
// ---------------------------------------------------------------------

/// The line starts with type word `t` followed by a space or a tab.
pub open spec fn type_word_at(line: Seq<char>, t: Seq<char>) -> bool {
    starts_with(line, t) && t.len() < line.len() && (line[t.len() as int] == ' ' || line[t.len() as int] == '\t')
}

fn type_word_at_exec(line: &Vec<char>, t: &str) -> (r: bool)
    ensures
        r == type_word_at(line@, t@),
{
    let tv = chars_of(t);
    if !occurs_at_exec(line, &tv, 0) {
        return false;
    }
    tv.len() < line.len() && (line[tv.len()] == ' ' || line[tv.len()] == '\t')
}

/// Shorthand attribute or reference line: `String :name` (any of the seven
/// primitive types), `list_of(...)`, `reference_to(...)`.
pub open spec fn shorthand_line(line: Seq<char>) -> bool {
    ||| type_word_at(line, "String"@)
    ||| type_word_at(line, "Integer"@)
    ||| type_word_at(line, "Float"@)
    ||| type_word_at(line, "Boolean"@)
    ||| type_word_at(line, "JSON"@)
    ||| type_word_at(line, "Date"@)
    ||| type_word_at(line, "DateTime"@)
    ||| starts_with(line, "list_of("@)
    ||| starts_with(line, "reference_to("@)
}

pub fn is_shorthand_line_chars(line: &Vec<char>) -> (r: bool)
    ensures
        r == shorthand_line(line@),
{
    type_word_at_exec(line, "String") || type_word_at_exec(line, "Integer") || type_word_at_exec(
        line,
        "Float",
    ) || type_word_at_exec(line, "Boolean") || type_word_at_exec(line, "JSON")
        || type_word_at_exec(line, "Date") || type_word_at_exec(line, "DateTime")
        || starts_with_str(line, "list_of(") || starts_with_str(line, "reference_to(")
}

/// Detect shorthand attribute or reference lines.
pub fn is_shorthand_line(line: &str) -> (r: bool)
    ensures
        r == shorthand_line(line@),
{
    let s = chars_of(line);
    is_shorthand_line_chars(&s)
}

/// The first whitespace-separated word.
pub open spec fn first_word(s: Seq<char>) -> Seq<char> {
    take_until(trim_start(s), Stop::White)
}

pub fn first_word_exec(s: &Vec<char>) -> (r: Vec<char>)
    ensures
        r@ == first_word(s@),
{
    let t = trim_start_exec(s);
    take_until_exec(&t, &Stop::White)
}

/// Words that begin DSL declarations rather than shorthand commands.
pub open spec fn dsl_keyword(w: Seq<char>) -> bool {
    ||| w == "aggregate"@
    ||| w == "policy"@
    ||| w == "lifecycle"@
    ||| w == "value_object"@
    ||| w == "vow"@
    ||| w == "fixture"@
    ||| w == "category"@
    ||| w == "vision"@
    ||| w == "description"@
    ||| w == "Hecks"@
    ||| w == "String"@
    ||| w == "Integer"@
    ||| w == "Float"@
    ||| w == "Boolean"@
    ||| w == "JSON"@
    ||| w == "Date"@
    ||| w == "DateTime"@
}

fn dsl_keyword_exec(w: &Vec<char>) -> (r: bool)
    ensures
        r == dsl_keyword(w@),
{
    eq_str(w, "aggregate") || eq_str(w, "policy") || eq_str(w, "lifecycle") || eq_str(w, "value_object")
        || eq_str(w, "vow") || eq_str(w, "fixture") || eq_str(w, "category") || eq_str(w, "vision")
        || eq_str(w, "description") || eq_str(w, "Hecks") || eq_str(w, "String") || eq_str(
        w,
        "Integer",
    ) || eq_str(w, "Float") || eq_str(w, "Boolean") || eq_str(w, "JSON") || eq_str(w, "Date")
        || eq_str(w, "DateTime")
}

/// PascalCase: an uppercase first letter and a lowercase letter after it.
pub open spec fn pascal(w: Seq<char>) -> bool {
    w.len() >= 2 && is_upper(w[0]) && exists|j: int| 1 <= j < w.len() && is_lower(#[trigger] w[j])
}

fn pascal_exec(w: &Vec<char>) -> (r: bool)
    ensures
        r == pascal(w@),
{
    if w.len() < 2 {
        return false;
    }
    let up = char_is_uppercase(w[0]);
    if !up {
        return false;
    }
    assert(is_upper(w@[0]));
    let mut j: usize = 1;
    while j < w.len()
        invariant
            1 <= j <= w.len(),
            w@.len() >= 2,
            is_upper(w@[0]),
            forall|m: int| 1 <= m < j ==> !is_lower(#[trigger] w@[m]),
        decreases w.len() - j,
    {
        if char_is_lowercase(w[j]) {
            assert(is_lower(w@[j as int]));
            return true;
        }
        j = j + 1;
    }
    false
}

/// A bare PascalCase command: `CreatePizza do` or `CreatePizza {`.
pub open spec fn shorthand_command(line: Seq<char>) -> bool {
    let w = first_word(line);
    pascal(w) && (ends_with(line, " do"@) || contains_char(line, '{')) && !dsl_keyword(w)
}

pub fn is_shorthand_command_chars(line: &Vec<char>) -> (r: bool)
    ensures
        r == shorthand_command(line@),
{
    let w = first_word_exec(line);
    pascal_exec(&w) && (ends_with_str(line, " do") || contains_char_exec(line, '{')) && !dsl_keyword_exec(
        &w,
    )
}

/// Detect bare PascalCase command: `CreatePizza do` or `CreatePizza {`.
pub fn is_shorthand_command(line: &str) -> (r: bool)
    ensures
        r == shorthand_command(line@),
{
    let s = chars_of(line);
    is_shorthand_command_chars(&s)
}

/// `s` up to its first `c` (all of `s` when there is none).
pub open spec fn before_char(s: Seq<char>, c: char) -> Seq<char> {
    match find_char(s, c) {
        Some(k) => s.subrange(0, k),
        None => s,
    }
}

pub fn before_char_exec(s: &Vec<char>, c: char) -> (r: Vec<char>)
    ensures
        r@ == before_char(s@, c),
{
    match find_char_exec(s, c) {
        Some(k) => slice(s, 0, k),
        None => s.clone(),
    }
}

/// `s` up to its first occurrence of `p` (all of `s` when there is none).
pub open spec fn before_seq(s: Seq<char>, p: Seq<char>) -> Seq<char> {
    match find_seq(s, p) {
        Some(k) => s.subrange(0, k),
        None => s,
    }
}

pub fn before_str(s: &Vec<char>, p: &str) -> (r: Vec<char>)
    ensures
        r@ == before_seq(s@, p@),
{
    match find_str(s, p) {
        Some(k) => slice(s, 0, k),
        None => s.clone(),
    }
}

/// The default of a shorthand attribute, when the line has `default:`:
/// `Some(None)` for no default, `None` when a quoted default never closes.
pub open spec fn shorthand_default(s: Seq<char>) -> Option<Option<Seq<char>>> {
    match find_seq(s, "default:"@) {
        None => Some(None),
        Some(pos) => {
            let after = trim(s.subrange(pos + 8, s.len() as int));
            if after.len() > 0 && after[0] == '"' {
                let rest = after.drop_first();
                match find_char(rest, '"') {
                    Some(e) => Some(Some(rest.subrange(0, e))),
                    None => None,
                }
            } else {
                Some(nonempty(take_until(after, Stop::CommaOrWhite)))
            }
        },
    }
}

proof fn lemma_default_len()
    ensures
        "default:"@.len() == 8,
        "required:"@.len() == 9,
{
    reveal_strlit("default:");
    reveal_strlit("required:");
}

fn shorthand_default_exec(s: &Vec<char>) -> (r: Option<Option<Vec<char>>>)
    ensures
        match r {
            None => shorthand_default(s@) is None,
            Some(d) => shorthand_default(s@) == Some(opt_view(d)),
        },
{
    proof { lemma_default_len(); }
    match find_str(s, "default:") {
        None => Some(None),
        Some(pos) => {
            let rest = tail(s, pos + 8);
            let after = trim_exec(&rest);
            if starts_with_char(&after, '"') {
                let rest2 = tail(&after, 1);
                assert(rest2@ =~= after@.drop_first());
                match find_char_exec(&rest2, '"') {
                    Some(e) => Some(Some(slice(&rest2, 0, e))),
                    None => None,
                }
            } else {
                let tok = take_until_exec(&after, &Stop::CommaOrWhite);
                Some(nonempty_exec(tok))
            }
        },
    }
}

/// `required: true` is present.
pub open spec fn required_flag(s: Seq<char>) -> bool {
    match find_seq(s, "required:"@) {
        Some(pos) => starts_with(trim_start(s.subrange(pos + 9, s.len() as int)), "true"@),
        None => false,
    }
}

fn required_flag_exec(s: &Vec<char>) -> (r: bool)
    ensures
        r == required_flag(s@),
{
    proof { lemma_default_len(); }
    match find_str(s, "required:") {
        Some(pos) => {
            let rest = tail(s, pos + 9);
            let t = trim_start_exec(&rest);
            starts_with_str(&t, "true")
        },
        None => false,
    }
}

/// The type of a shorthand attribute: the text inside `list_of(...)`,
/// otherwise the word before the first space or tab.
pub open spec fn shorthand_type(s: Seq<char>) -> Option<Seq<char>> {
    if starts_with(s, "list_of("@) {
        match (find_char(s, '('), find_char(s, ')')) {
            (Some(o), Some(c)) => if c < o + 1 {
                None
            } else {
                Some(trim(s.subrange(o + 1, c)))
            },
            _ => None,
        }
    } else {
        let e = scan(s, Stop::SpaceOrTab, 0);
        if e >= s.len() {
            None
        } else {
            Some(s.subrange(0, e))
        }
    }
}

fn shorthand_type_exec(s: &Vec<char>) -> (r: Option<Vec<char>>)
    ensures
        opt_view(r) == shorthand_type(s@),
{
    if starts_with_str(s, "list_of(") {
        let o = match find_char_exec(s, '(') {
            Some(o) => o,
            None => return None,
        };
        let c = match find_char_exec(s, ')') {
            Some(c) => c,
            None => return None,
        };
        if c < o + 1 {
            return None;
        }
        let inner = slice(s, o + 1, c);
        Some(trim_exec(&inner))
    } else {
        let e = scan_exec(s, &Stop::SpaceOrTab, 0);
        if e >= s.len() {
            None
        } else {
            Some(slice(s, 0, e))
        }
    }
}

pub open spec fn plain_attribute(
    name: Seq<char>,
    attr_type: Seq<char>,
    default: Option<Seq<char>>,
    list: bool,
    required: bool,
) -> AttributeModel {
    AttributeModel {
        name,
        attr_type,
        default,
        list,
        required,
        enum_values: Seq::empty(),
        pattern: None,
        hint: None,
        logged: true,
    }
}

/// `parse_shorthand_attribute`'s result.
pub open spec fn shorthand_attribute(s: Seq<char>) -> Option<AttributeModel> {
    match (shorthand_type(s), symbol_of(s), shorthand_default(s)) {
        (Some(t), Some(name), Some(d)) => Some(
            plain_attribute(name, t, d, starts_with(s, "list_of("@), required_flag(s)),
        ),
        _ => None,
    }
}

pub fn parse_shorthand_attribute_chars(s: &Vec<char>) -> (r: Option<Attribute>)
    ensures
        opt_view(r) == shorthand_attribute(s@),
{
    let list = starts_with_str(s, "list_of(");
    let t = match shorthand_type_exec(s) {
        Some(t) => t,
        None => return None,
    };
    let name = match extract_symbol_chars(s) {
        Some(n) => n,
        None => return None,
    };
    let d = match shorthand_default_exec(s) {
        Some(d) => d,
        None => return None,
    };
    let required = required_flag_exec(s);
    let r = Attribute {
        name: string_of(&name),
        attr_type: string_of(&t),
        default: opt_string(&d),
        list,
        required,
        enum_values: Vec::new(),
        pattern: None,
        hint: None,
        logged: true,
    };
    assert(r@.enum_values =~= Seq::<Seq<char>>::empty());
    Some(r)
}

/// Parse `String :name`, `Integer :count`, `list_of(Order) :tags`, and
/// the `default:` kwarg form `Integer :count, default: 0`.
pub fn parse_shorthand_attribute(line: &str) -> (r: Option<Attribute>)
    ensures
        opt_view(r) == shorthand_attribute(line@),
{
    let s = chars_of(line);
    parse_shorthand_attribute_chars(&s)
}

/// `s` with `dflt` standing in for `None`.
pub open spec fn or_default(x: Option<Seq<char>>, dflt: Seq<char>) -> Seq<char> {
    match x {
        Some(v) => v,
        None => dflt,
    }
}

fn or_default_exec(x: Option<Vec<char>>, dflt: Vec<char>) -> (r: Vec<char>)
    ensures
        r@ == or_default(opt_view(x), dflt@),
{
    match x {
        Some(v) => v,
        None => dflt,
    }
}

/// The reference text lies between the first `(` and the first `)`: a
/// slice that cannot be taken when the `)` comes first.
pub open spec fn reference_panics(s: Seq<char>) -> bool {
    match (find_char(s, '('), find_char(s, ')')) {
        (Some(o), Some(c)) => c < o + 1,
        _ => false,
    }
}

/// The alias of a shorthand reference, `dflt` when none is given.
pub open spec fn reference_alias(s: Seq<char>, inside: Seq<char>, after_close: Seq<char>, dflt: Seq<char>) -> Seq<char> {
    if contains_seq(s, ".as("@) {
        or_default(symbol_of(s.subrange(find_seq(s, ".as("@)->0, s.len() as int)), dflt)
    } else if find_seq(inside, ", as:"@) is Some {
        or_default(symbol_of(inside.subrange(find_seq(inside, ", as:"@)->0 + 5, inside.len() as int)), dflt)
    } else if find_seq(inside, "as:"@) is Some {
        or_default(symbol_of(inside.subrange(find_seq(inside, "as:"@)->0 + 3, inside.len() as int)), dflt)
    } else if find_seq(inside, "role:"@) is Some {
        or_default(symbol_of(inside.subrange(find_seq(inside, "role:"@)->0 + 5, inside.len() as int)), dflt)
    } else if trim_start(after_close).len() > 0 && trim_start(after_close)[0] == ':' {
        or_default(symbol_of(after_close), dflt)
    } else {
        dflt
    }
}

/// `parse_shorthand_reference`'s result.
pub open spec fn shorthand_reference(s: Seq<char>) -> Option<ReferenceModel> {
    match (find_char(s, '('), find_char(s, ')')) {
        (Some(o), Some(c)) => if c < o + 1 {
            None
        } else {
            let inside = s.subrange(o + 1, c);
            let after_close = s.subrange(c + 1, s.len() as int);
            let target = trim(before_char(inside, ','));
            let name = reference_alias(s, inside, after_close, snake(target));
            let domain = if contains_seq(target, "::"@) {
                Some(before_seq(target, "::"@))
            } else {
                None
            };
            Some(
                reference_model(
                    name,
                    target,
                    domain,
                    Cardinality::Single,
                    ReferenceKind::LegacyReferenceTo,
                ),
            )
        },
        _ => None,
    }
}

proof fn lemma_alias_lens()
    ensures
        ", as:"@.len() == 5,
        "as:"@.len() == 3,
        "role:"@.len() == 5,
{
    reveal_strlit(", as:");
    reveal_strlit("as:");
    reveal_strlit("role:");
}

fn reference_alias_exec(s: &Vec<char>, inside: &Vec<char>, after_close: &Vec<char>, dflt: Vec<char>) -> (r: Vec<char>)
    ensures
        r@ == reference_alias(s@, inside@, after_close@, dflt@),
{
    proof { lemma_alias_lens(); }
    if let Some(p) = find_str(s, ".as(") {
        let rest = tail(s, p);
        return or_default_exec(extract_symbol_chars(&rest), dflt);
    }
    if let Some(p) = find_str(inside, ", as:") {
        let rest = tail(inside, p + 5);
        return or_default_exec(extract_symbol_chars(&rest), dflt);
    }
    if let Some(p) = find_str(inside, "as:") {
        let rest = tail(inside, p + 3);
        return or_default_exec(extract_symbol_chars(&rest), dflt);
    }
    if let Some(p) = find_str(inside, "role:") {
        let rest = tail(inside, p + 5);
        return or_default_exec(extract_symbol_chars(&rest), dflt);
    }
    let t = trim_start_exec(after_close);
    if starts_with_char(&t, ':') {
        return or_default_exec(extract_symbol_chars(after_close), dflt);
    }
    dflt
}

pub fn parse_shorthand_reference_chars(s: &Vec<char>) -> (r: Option<Reference>)
    ensures
        opt_view(r) == shorthand_reference(s@),
{
    let o = match find_char_exec(s, '(') {
        Some(o) => o,
        None => return None,
    };
    let c = match find_char_exec(s, ')') {
        Some(c) => c,
        None => return None,
    };
    if c < o + 1 {
        return None;
    }
    let inside = slice(s, o + 1, c);
    let after_close = tail(s, c + 1);
    let head = before_char_exec(&inside, ',');
    let target = trim_exec(&head);
    let dflt = to_snake_case_chars(&target);
    let name = reference_alias_exec(s, &inside, &after_close, dflt);
    let domain = if contains_str(&target, "::") {
        Some(string_of(&before_str(&target, "::")))
    } else {
        None
    };
    Some(Reference::single(string_of(&name), string_of(&target), domain))
}

/// Parse a reference declaration: `reference_to(Order)`, with an alias
/// given as `as: :x`, `role: :x`, `.as(:x)` or a trailing `:x`.
pub fn parse_shorthand_reference(line: &str) -> (r: Option<Reference>)
    requires
        !reference_panics(line@),
    ensures
        opt_view(r) == shorthand_reference(line@),
{
    let s = chars_of(line);
    parse_shorthand_reference_chars(&s)
}

/// Unified shorthand dispatcher.
pub enum ShorthandResult {
    Attribute(Attribute),
    Reference(Reference),
    Neither,
}

pub enum ShorthandModel {
    Attribute(AttributeModel),
    Reference(ReferenceModel),
    Nothing,
}

impl View for ShorthandResult {
    type V = ShorthandModel;

    open spec fn view(&self) -> ShorthandModel {
        match self {
            ShorthandResult::Attribute(a) => ShorthandModel::Attribute(a@),
            ShorthandResult::Reference(r) => ShorthandModel::Reference(r@),
            ShorthandResult::Neither => ShorthandModel::Nothing,
        }
    }
}

/// `parse_shorthand`'s result.
pub open spec fn shorthand(s: Seq<char>) -> ShorthandModel {
    if !shorthand_line(s) {
        ShorthandModel::Nothing
    } else if starts_with(s, "reference_to("@) {
        match shorthand_reference(s) {
            Some(r) => ShorthandModel::Reference(r),
            None => ShorthandModel::Nothing,
        }
    } else {
        match shorthand_attribute(s) {
            Some(a) => ShorthandModel::Attribute(a),
            None => ShorthandModel::Nothing,
        }
    }
}

pub fn parse_shorthand_chars(s: &Vec<char>) -> (r: ShorthandResult)
    ensures
        r@ == shorthand(s@),
{
    if !is_shorthand_line_chars(s) {
        return ShorthandResult::Neither;
    }
    if starts_with_str(s, "reference_to(") {
        match parse_shorthand_reference_chars(s) {
            Some(r) => ShorthandResult::Reference(r),
            None => ShorthandResult::Neither,
        }
    } else {
        match parse_shorthand_attribute_chars(s) {
            Some(a) => ShorthandResult::Attribute(a),
            None => ShorthandResult::Neither,
        }
    }
}

/// Parse a shorthand line into an attribute or a reference.
pub fn parse_shorthand(line: &str) -> (r: ShorthandResult)
    ensures
        r@ == shorthand(line@),
{
    let s = chars_of(line);
    parse_shorthand_chars(&s)
}

} // verus!

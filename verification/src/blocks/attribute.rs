//! Attribute, mutation, lifecycle and fixture parsing.

use vstd::prelude::*;
use crate::text::{Stop, append, char_is_uppercase, chars_of, contains_char, contains_char_exec, contains_seq, contains_str, eq_str, find_char, find_char_exec, find_seq, find_seq_from, find_seq_from_exec, find_str, ident_char, is_ascii_lower, is_ident, is_upper, lines_of, opt_string, scan, scan_exec, slice, split_char, split_char_exec, starts_with, starts_with_char, starts_with_str, string_of, strs_view, tail, take_until, take_until_exec, trim, trim_exec, trim_start, trim_start_exec, views};
use crate::ir::{Attribute, AttributeModel, Fixture, FixtureModel, Lifecycle, LifecycleModel, Mutation, MutationModel, MutationOp, Transition, TransitionModel, group_views, opt_seq_view, opt_view, seq_view};
use crate::helpers::{after_keyword, before_char, before_char_exec, ends_with_do_block_chars, extract_after_chars, extract_state_token_chars, extract_string_chars, extract_symbol_chars, first_word, first_word_exec, nonempty, nonempty_exec, opens_do_block, or_default, snake, state_token, string_literal, strip_trailing_comment_chars, symbol_of, to_snake_case_chars, without_comment};
use crate::pattern::{at, refused, refused_chars};

verus! {

broadcast use crate::ir::group_views;

proof fn lemma_literal_lens()
    ensures
        "attribute"@.len() == 9,
        "one_of("@.len() == 7,
        "pattern:"@.len() == 8,
        "hint:"@.len() == 5,
        "as:"@.len() == 3,
{
    reveal_strlit("attribute");
    reveal_strlit("one_of(");
    reveal_strlit("pattern:");
    reveal_strlit("hint:");
    reveal_strlit("as:");
}

/// The second piece of `s.split(p)`: the text between the first and the
/// second occurrence of `p` (or the end).
pub open spec fn split_piece(s: Seq<char>, p: Seq<char>) -> Option<Seq<char>> {
    match find_seq(s, p) {
        Some(k) => {
            let st = k + p.len();
            let en = match find_seq_from(s, p, st) {
                Some(e) => e,
                None => s.len() as int,
            };
            if en < st {
                None
            } else {
                Some(s.subrange(st, en))
            }
        },
        None => None,
    }
}

pub fn split_piece_exec(s: &Vec<char>, p: &Vec<char>) -> (r: Option<Vec<char>>)
    ensures
        opt_view(r) == split_piece(s@, p@),
{
    let k = match find_seq_from_exec(s, p, 0) {
        Some(k) => k,
        None => return None,
    };
    let st = k + p.len();
    let en = match find_seq_from_exec(s, p, st) {
        Some(e) => e,
        None => s.len(),
    };
    if en < st {
        return None;
    }
    Some(slice(s, st, en))
}

/// The second comma-separated part (of at most three).
pub open spec fn part1(s: Seq<char>) -> Option<Seq<char>> {
    match find_char(s, ',') {
        Some(k) => Some(before_char(s.subrange(k + 1, s.len() as int), ',')),
        None => None,
    }
}

fn part1_exec(s: &Vec<char>) -> (r: Option<Vec<char>>)
    ensures
        opt_view(r) == part1(s@),
{
    match find_char_exec(s, ',') {
        Some(k) => {
            let rest = tail(s, k + 1);
            Some(before_char_exec(&rest, ','))
        },
        None => None,
    }
}

/// The PascalCase value-object name of a bare `attribute Role` line.
pub open spec fn bare_vo(first: Seq<char>) -> Option<Seq<char>> {
    if starts_with(first, "attribute"@) {
        let token = take_until(trim_start(first.subrange(9, first.len() as int)), Stop::NonIdent);
        if token.len() == 0 || !is_upper(token[0]) {
            None
        } else {
            Some(token)
        }
    } else {
        None
    }
}

fn bare_vo_type(first: &Vec<char>) -> (r: Option<Vec<char>>)
    ensures
        opt_view(r) == bare_vo(first@),
{
    proof { lemma_literal_lens(); }
    if !starts_with_str(first, "attribute") {
        return None;
    }
    let rest = tail(first, 9);
    let t = trim_start_exec(&rest);
    let token = take_until_exec(&t, &Stop::NonIdent);
    if token.len() == 0 || !char_is_uppercase(token[0]) {
        None
    } else {
        Some(token)
    }
}

/// `key: value` with `key` a lowercase identifier.
pub open spec fn looks_like_kwarg(s: Seq<char>) -> bool {
    match find_char(s, ':') {
        None => false,
        Some(c) => {
            let before = s.subrange(0, c);
            before.len() > 0 && is_ascii_lower(before[0]) && forall|j: int|
                0 <= j < before.len() ==> is_ident(#[trigger] before[j])
        },
    }
}

fn is_kwarg(s: &Vec<char>) -> (r: bool)
    ensures
        r == looks_like_kwarg(s@),
{
    let c = match find_char_exec(s, ':') {
        Some(c) => c,
        None => return false,
    };
    if c == 0 || !('a' <= s[0] && s[0] <= 'z') {
        return false;
    }
    let ghost before = s@.subrange(0, c as int);
    assert(find_char(s@, ':') == Some(c as int));
    let mut j: usize = 0;
    while j < c
        invariant
            c <= s.len(),
            find_char(s@, ':') == Some(c as int),
            before == s@.subrange(0, c as int),
            forall|m: int| 0 <= m < j ==> is_ident(#[trigger] before[m]),
        decreases c - j,
    {
        if !ident_char(s[j]) {
            assert(before[j as int] == s@[j as int]);
            assert(!is_ident(before[j as int]));
            return false;
        }
        assert(before[j as int] == s@[j as int]);
        j = j + 1;
    }
    true
}

/// The name of a bare value-object attribute: the `as:` alias, else the
/// snake_case value-object name.
pub open spec fn vo_alias(p1: Option<Seq<char>>, vo: Seq<char>) -> Seq<char> {
    match p1 {
        Some(p) => match find_seq(p, "as:"@) {
            Some(pos) => or_default(symbol_of(p.subrange(pos + 3, p.len() as int)), snake(vo)),
            None => snake(vo),
        },
        None => snake(vo),
    }
}

fn vo_alias_exec(p1: &Option<Vec<char>>, vo: &Vec<char>) -> (r: Vec<char>)
    ensures
        r@ == vo_alias(opt_view(*p1), vo@),
{
    proof { lemma_literal_lens(); }
    let dflt = to_snake_case_chars(vo);
    match p1 {
        Some(p) => match find_str(p, "as:") {
            Some(pos) => {
                let rest = tail(p, pos + 3);
                match extract_symbol_chars(&rest) {
                    Some(v) => v,
                    None => dflt,
                }
            },
            None => dflt,
        },
        None => dflt,
    }
}

/// The type inside `list_of(...)`.
pub open spec fn list_inner(raw: Seq<char>) -> Option<Seq<char>> {
    match (find_char(raw, '('), find_char(raw, ')')) {
        (Some(o), Some(c)) => if c < o + 1 {
            None
        } else {
            Some(trim(raw.subrange(o + 1, c)))
        },
        _ => None,
    }
}

fn list_inner_exec(raw: &Vec<char>) -> (r: Option<Vec<char>>)
    ensures
        opt_view(r) == list_inner(raw@),
{
    let o = match find_char_exec(raw, '(') {
        Some(o) => o,
        None => return None,
    };
    let c = match find_char_exec(raw, ')') {
        Some(c) => c,
        None => return None,
    };
    if c < o + 1 {
        return None;
    }
    let inner = slice(raw, o + 1, c);
    Some(trim_exec(&inner))
}

/// The string literals among the pieces, in order.
pub open spec fn literals_of(parts: Seq<Seq<char>>) -> Seq<Seq<char>>
    decreases parts.len(),
{
    if parts.len() == 0 {
        Seq::empty()
    } else {
        literals_of(parts.drop_last()) + match string_literal(parts.last()) {
            Some(v) => seq![v],
            None => Seq::empty(),
        }
    }
}

fn literals_of_exec(parts: &Vec<Vec<char>>) -> (r: Vec<String>)
    ensures
        seq_view(r@) == literals_of(views(parts@)),
{
    let mut out: Vec<String> = Vec::new();
    let mut i: usize = 0;
    while i < parts.len()
        invariant
            i <= parts.len(),
            seq_view(out@) == literals_of(views(parts@).take(i as int)),
        decreases parts.len() - i,
    {
        assert(views(parts@).take(i + 1).drop_last() =~= views(parts@).take(i as int));
        assert(views(parts@).take(i + 1).last() == parts@[i as int]@);
        let ghost before = seq_view(out@);
        match extract_string_chars(&parts[i]) {
            Some(v) => {
                out.push(string_of(&v));
                assert(seq_view(out@) =~= before + seq![v@]);
            },
            None => {
                assert(seq_view(out@) =~= before + Seq::<Seq<char>>::empty());
            },
        }
        i = i + 1;
    }
    assert(views(parts@).take(parts.len() as int) =~= views(parts@));
    out
}

/// `key: 'text'` (or `"text"`): the quoted text after the first `key`,
/// read within the piece before the next `key`.
pub open spec fn quoted_kwarg(line: Seq<char>, key: Seq<char>) -> Option<Seq<char>> {
    match split_piece(line, key) {
        None => None,
        Some(piece) => {
            let after = trim_start(piece);
            if after.len() > 0 && (after[0] == '\'' || after[0] == '"') {
                Some(before_char(after.drop_first(), after[0]))
            } else {
                None
            }
        },
    }
}

fn quoted_kwarg_exec(line: &Vec<char>, key: &str) -> (r: Option<Vec<char>>)
    ensures
        opt_view(r) == quoted_kwarg(line@, key@),
{
    let k = chars_of(key);
    let piece = match split_piece_exec(line, &k) {
        Some(p) => p,
        None => return None,
    };
    let after = trim_start_exec(&piece);
    if after.len() > 0 && (after[0] == '\'' || after[0] == '"') {
        let q = after[0];
        let rest = tail(&after, 1);
        assert(rest@ =~= after@.drop_first());
        Some(before_char_exec(&rest, q))
    } else {
        None
    }
}

/// `pattern: '<regex>'`, kept only when it is in the shared regex subset.
pub open spec fn pattern_kwarg(line: Seq<char>) -> Option<Seq<char>> {
    match quoted_kwarg(line, "pattern:"@) {
        Some(body) => if refused(body) is None {
            Some(body)
        } else {
            None
        },
        None => None,
    }
}

fn parse_pattern_kwarg(line: &Vec<char>) -> (r: Option<Vec<char>>)
    ensures
        opt_view(r) == pattern_kwarg(line@),
{
    match quoted_kwarg_exec(line, "pattern:") {
        Some(body) => if refused_chars(&body).is_none() {
            Some(body)
        } else {
            None
        },
        None => None,
    }
}

/// `hint: "..."`: the human guidance shown on a shape mismatch.
pub open spec fn hint_kwarg(line: Seq<char>) -> Option<Seq<char>> {
    match quoted_kwarg(line, "hint:"@) {
        Some(body) => nonempty(body),
        None => None,
    }
}

fn parse_hint_kwarg(line: &Vec<char>) -> (r: Option<Vec<char>>)
    ensures
        opt_view(r) == hint_kwarg(line@),
{
    match quoted_kwarg_exec(line, "hint:") {
        Some(body) => nonempty_exec(body),
        None => None,
    }
}

/// The text after `key` starts (past whitespace) with `word`.
pub open spec fn kwarg_starts(line: Seq<char>, key: Seq<char>, word: Seq<char>) -> bool {
    match after_keyword(line, key) {
        Some(a) => starts_with(trim_start(a), word),
        None => false,
    }
}

fn kwarg_starts_exec(line: &Vec<char>, key: &str, word: &str) -> (r: bool)
    ensures
        r == kwarg_starts(line@, key@, word@),
{
    let k = chars_of(key);
    match extract_after_chars(line, &k) {
        Some(a) => {
            let t = trim_start_exec(&a);
            starts_with_str(&t, word)
        },
        None => false,
    }
}

/// The positional type of an attribute (before `one_of` applies).
pub open spec fn positional_type(raw: Seq<char>) -> Option<Seq<char>> {
    if starts_with(raw, "list_of("@) {
        list_inner(raw)
    } else if raw.len() == 0 || looks_like_kwarg(raw) {
        Some("String"@)
    } else {
        Some(raw)
    }
}

/// The `default:` of an attribute line: `Some(None)` when absent, `None`
/// when the keyword is found but nothing can be read after it.
pub open spec fn attribute_default(line: Seq<char>) -> Option<Option<Seq<char>>> {
    if contains_seq(line, "default:"@) {
        match after_keyword(line, "default:"@) {
            None => None,
            Some(a) => Some(
                if contains_char(a, '"') {
                    string_literal(a)
                } else {
                    Some(or_default(nonempty(first_word(a)), a))
                },
            ),
        }
    } else {
        Some(None)
    }
}

/// The closed vocabulary of `one_of("a", "b")`, with its String type.
pub open spec fn one_of_values(line: Seq<char>) -> Option<Seq<Seq<char>>> {
    match find_seq(line, "one_of("@) {
        Some(st) => {
            let inner = line.subrange(st + 7, line.len() as int);
            let close = match find_char(inner, ')') {
                Some(c) => c,
                None => inner.len() as int,
            };
            Some(literals_of(split_char(inner.subrange(0, close), ',')))
        },
        None => None,
    }
}

/// `parse_attribute`'s result.
pub open spec fn attribute_of(line0: Seq<char>) -> Option<AttributeModel> {
    let line = without_comment(line0);
    let first = trim(before_char(line, ','));
    let p1 = part1(line);
    let head: Option<(Seq<char>, Option<Seq<char>>)> = match symbol_of(first) {
        Some(sym) => Some((sym, None)),
        None => match bare_vo(first) {
            Some(vo) => Some((vo_alias(p1, vo), Some(vo))),
            None => None,
        },
    };
    let raw = match p1 {
        Some(p) => trim(p),
        None => Seq::empty(),
    };
    match head {
        None => None,
        Some((name, ty0)) => {
            let ty1 = match ty0 {
                Some(t) => Some(t),
                None => positional_type(raw),
            };
            match (ty1, attribute_default(line)) {
                (Some(ty), Some(d)) => Some(
                    AttributeModel {
                        name,
                        attr_type: match one_of_values(line) {
                            Some(_) => "String"@,
                            None => ty,
                        },
                        default: d,
                        list: contains_seq(line, "list_of("@),
                        required: kwarg_starts(line, "required:"@, "true"@),
                        enum_values: match one_of_values(line) {
                            Some(v) => v,
                            None => Seq::empty(),
                        },
                        pattern: pattern_kwarg(line),
                        hint: hint_kwarg(line),
                        logged: !kwarg_starts(line, "logged:"@, "false"@),
                    },
                ),
                _ => None,
            }
        },
    }
}

proof fn lemma_back_comma_keeps(s: Seq<char>, j: int, m: int)
    requires
        0 < m <= j <= s.len(),
        s[m - 1] != ',' && s[m - 1] != ' ',
    ensures
        crate::helpers::back_comma_space(s, j) >= m,
    decreases j,
{
    if j > m {
        lemma_back_comma_keeps(s, j - 1, m);
    }
}

/// A trimmed text is empty or opens with a non-whitespace character.
proof fn lemma_trim_head(x: Seq<char>)
    ensures
        trim(x).len() == 0 || !crate::text::is_white(trim(x)[0]),
{
    let ts = trim_start(x);
    crate::text::lemma_skip_ws(x, 0);
    crate::text::lemma_back_ws(ts, ts.len() as int);
    if trim(x).len() > 0 {
        assert(trim(x)[0] == ts[0]);
        assert(ts[0] == x[crate::text::skip_ws(x, 0)]);
    }
}

/// Reading a keyword's value as `extract_after` does (trailing commas and
/// spaces dropped) and testing whether it starts with `true` is the same
/// as testing the trimmed text after the keyword.
proof fn lemma_kwarg_true(t: Seq<char>)
    requires
        t.len() == 0 || !crate::text::is_white(t[0]),
    ensures
        starts_with(trim_start(crate::helpers::strip_commas_spaces(t)), "true"@) == starts_with(t, "true"@),
{
    reveal_strlit("true");
    let b = crate::helpers::back_comma_space(t, t.len() as int);
    crate::helpers::lemma_back_comma_space(t, t.len() as int);
    let a = crate::helpers::strip_commas_spaces(t);
    assert(a == t.subrange(0, b));
    if a.len() > 0 {
        assert(a[0] == t[0]);
        assert(crate::text::skip_ws(a, 0) == 0);
        assert(trim_start(a) =~= a);
    } else {
        crate::text::lemma_skip_ws(a, 0);
        assert(trim_start(a).len() == 0);
    }
    if starts_with(t, "true"@) {
        assert(t.subrange(0, 4) == "true"@);
        assert("true"@[3] == 'e');
        assert(t.subrange(0, 4)[3] == t[3]);
        assert(t[3] == 'e');
        lemma_back_comma_keeps(t, t.len() as int, 4);
        assert(a.subrange(0, 4) =~= t.subrange(0, 4));
    }
    if starts_with(trim_start(a), "true"@) {
        assert(a.len() >= 4);
        assert(t.subrange(0, 4) =~= a.subrange(0, 4));
    }
}

/// `required: true` makes an attribute required whatever else its line
/// declares (`default:`, `one_of`, `pattern:` ...): a parsed attribute is
/// required exactly when its line, comment removed, has `required:` and
/// the text after the first one, trimmed, starts with `true`.
pub proof fn law_required_flag(line0: Seq<char>)
    requires
        attribute_of(line0) is Some,
    ensures
        ({
            let line = without_comment(line0);
            attribute_of(line0)->0.required == match find_seq(line, "required:"@) {
                Some(k) => starts_with(trim(line.subrange(k + 9, line.len() as int)), "true"@),
                None => false,
            }
        }),
{
    reveal_strlit("required:");
    let line = without_comment(line0);
    match find_seq(line, "required:"@) {
        Some(k) => {
            let t = trim(line.subrange(k + 9, line.len() as int));
            lemma_trim_head(line.subrange(k + 9, line.len() as int));
            lemma_kwarg_true(t);
        },
        None => {},
    }
}

fn attribute_default_exec(line: &Vec<char>) -> (r: Option<Option<Vec<char>>>)
    ensures
        match r {
            None => attribute_default(line@) is None,
            Some(d) => attribute_default(line@) == Some(opt_view(d)),
        },
{
    if !contains_str(line, "default:") {
        return Some(None);
    }
    let k = chars_of("default:");
    match extract_after_chars(line, &k) {
        None => None,
        Some(a) => {
            if contains_char_exec(&a, '"') {
                Some(extract_string_chars(&a))
            } else {
                let w = first_word_exec(&a);
                let v = match nonempty_exec(w) {
                    Some(x) => x,
                    None => a,
                };
                Some(Some(v))
            }
        },
    }
}

fn one_of_values_exec(line: &Vec<char>) -> (r: Option<Vec<String>>)
    ensures
        match r {
            None => one_of_values(line@) is None,
            Some(v) => one_of_values(line@) == Some(seq_view(v@)),
        },
{
    proof { lemma_literal_lens(); }
    match find_str(line, "one_of(") {
        Some(st) => {
            let inner = tail(line, st + 7);
            let close = match find_char_exec(&inner, ')') {
                Some(c) => c,
                None => inner.len(),
            };
            let head = slice(&inner, 0, close);
            let parts = split_char_exec(&head, ',');
            Some(literals_of_exec(&parts))
        },
        None => None,
    }
}

pub fn parse_attribute_chars(line0: &Vec<char>) -> (r: Option<Attribute>)
    ensures
        opt_view(r) == attribute_of(line0@),
{
    let line = strip_trailing_comment_chars(line0);
    let head0 = before_char_exec(&line, ',');
    let first = trim_exec(&head0);
    let p1 = part1_exec(&line);
    let (name, ty0): (Vec<char>, Option<Vec<char>>) = match extract_symbol_chars(&first) {
        Some(sym) => (sym, None),
        None => match bare_vo_type(&first) {
            Some(vo) => {
                let alias = vo_alias_exec(&p1, &vo);
                (alias, Some(vo))
            },
            None => return None,
        },
    };
    let raw = match &p1 {
        Some(p) => trim_exec(p),
        None => Vec::new(),
    };
    let ty = match ty0 {
        Some(t) => t,
        None => {
            if starts_with_str(&raw, "list_of(") {
                match list_inner_exec(&raw) {
                    Some(t) => t,
                    None => return None,
                }
            } else if raw.len() == 0 || is_kwarg(&raw) {
                chars_of("String")
            } else {
                raw
            }
        },
    };
    let d = match attribute_default_exec(&line) {
        Some(d) => d,
        None => return None,
    };
    let list = contains_str(&line, "list_of(");
    let required = kwarg_starts_exec(&line, "required:", "true");
    let (attr_type, enum_values) = match one_of_values_exec(&line) {
        Some(v) => (chars_of("String"), v),
        None => (ty, Vec::new()),
    };
    let pattern = parse_pattern_kwarg(&line);
    let hint = parse_hint_kwarg(&line);
    let logged = !kwarg_starts_exec(&line, "logged:", "false");
    let r = Attribute {
        name: string_of(&name),
        attr_type: string_of(&attr_type),
        default: opt_string(&d),
        list,
        required,
        enum_values,
        pattern: opt_string(&pattern),
        hint: opt_string(&hint),
        logged,
    };
    proof {
        if one_of_values(line@) is None {
            assert(seq_view(r.enum_values@) =~= Seq::<Seq<char>>::empty());
        }
    }
    Some(r)
}

/// Parse an `attribute :name, Type, default: ..., required: true, ...` line
/// (or the bare value-object form `attribute Role, as: :role`).
pub fn parse_attribute(line: &str) -> (r: Option<Attribute>)
    ensures
        opt_view(r) == attribute_of(line@),
{
    let s = chars_of(line);
    parse_attribute_chars(&s)
}


// ---------------------------------------------------------------------
// Top-level comma splitting
// ---------------------------------------------------------------------

/// Split on commas outside `"..."`, `'...'`, brackets, parens and braces,
/// scanning from `i` with the given nesting state; the current piece began
/// at `start`. A `"` preceded by a backslash does not toggle the quote state.
pub open spec fn top_split(
    s: Seq<char>,
    i: int,
    depth: int,
    in_str: bool,
    in_single: bool,
    start: int,
) -> Seq<Seq<char>>
    decreases s.len() - i,
{
    if i < 0 || i >= s.len() || start < 0 || start > i {
        seq![s.subrange(start, s.len() as int)]
    } else {
        let c = s[i];
        if c == '"' && !in_single && !(i > 0 && s[i - 1] == '\\') {
            top_split(s, i + 1, depth, !in_str, in_single, start)
        } else if c == '\'' && !in_str {
            top_split(s, i + 1, depth, in_str, !in_single, start)
        } else if (c == '[' || c == '{' || c == '(') && !in_str && !in_single {
            top_split(s, i + 1, depth + 1, in_str, in_single, start)
        } else if (c == ']' || c == '}' || c == ')') && !in_str && !in_single {
            top_split(s, i + 1, depth - 1, in_str, in_single, start)
        } else if c == ',' && !in_str && !in_single && depth == 0 {
            seq![s.subrange(start, i)] + top_split(s, i + 1, depth, in_str, in_single, i + 1)
        } else {
            top_split(s, i + 1, depth, in_str, in_single, start)
        }
    }
}

/// `split_top_level_commas`'s result.
pub open spec fn top_level_commas(s: Seq<char>) -> Seq<Seq<char>> {
    top_split(s, 0, 0, false, false, 0)
}

pub fn split_top_level_commas_chars(s: &Vec<char>) -> (r: Vec<Vec<char>>)
    ensures
        views(r@) == top_level_commas(s@),
{
    let mut out: Vec<Vec<char>> = Vec::new();
    let mut depth: i128 = 0;
    let mut in_str = false;
    let mut in_single = false;
    let mut start: usize = 0;
    let mut i: usize = 0;
    assert(views(out@) + top_level_commas(s@) =~= top_level_commas(s@));
    while i < s.len()
        invariant
            start <= i <= s.len(),
            -(i as int) <= depth <= i as int,
            views(out@) + top_split(s@, i as int, depth as int, in_str, in_single, start as int)
                == top_level_commas(s@),
        decreases s.len() - i,
    {
        let c = s[i];
        if c == '"' && !in_single && !(i > 0 && s[i - 1] == '\\') {
            in_str = !in_str;
        } else if c == '\'' && !in_str {
            in_single = !in_single;
        } else if (c == '[' || c == '{' || c == '(') && !in_str && !in_single {
            depth = depth + 1;
        } else if (c == ']' || c == '}' || c == ')') && !in_str && !in_single {
            depth = depth - 1;
        } else if c == ',' && !in_str && !in_single && depth == 0 {
            let piece = slice(s, start, i);
            let ghost before = views(out@);
            let ghost rest = top_split(s@, i + 1, depth as int, in_str, in_single, i + 1);
            out.push(piece);
            assert(views(out@) =~= before.push(piece@));
            assert(before + (seq![piece@] + rest) =~= before.push(piece@) + rest);
            start = i + 1;
        }
        i = i + 1;
    }
    let piece = tail(s, start);
    let ghost before = views(out@);
    out.push(piece);
    assert(views(out@) =~= before.push(piece@));
    assert(before + seq![piece@] =~= before.push(piece@));
    out
}

/// Split a member line on commas outside `"..."`; a trailing empty piece
/// is dropped.
pub open spec fn member_split(s: Seq<char>, i: int, in_q: bool, last: int) -> Seq<Seq<char>>
    decreases s.len() - i,
{
    if i < 0 || i >= s.len() || last < 0 || last > i {
        if 0 <= last < s.len() {
            seq![s.subrange(last, s.len() as int)]
        } else {
            Seq::empty()
        }
    } else if s[i] == '"' {
        member_split(s, i + 1, !in_q, last)
    } else if s[i] == ',' && !in_q {
        seq![s.subrange(last, i)] + member_split(s, i + 1, in_q, i + 1)
    } else {
        member_split(s, i + 1, in_q, last)
    }
}

pub open spec fn member_pairs(s: Seq<char>) -> Seq<Seq<char>> {
    member_split(s, 0, false, 0)
}

pub fn split_member_pairs(s: &Vec<char>) -> (r: Vec<Vec<char>>)
    ensures
        views(r@) == member_pairs(s@),
{
    let mut out: Vec<Vec<char>> = Vec::new();
    let mut in_q = false;
    let mut last: usize = 0;
    let mut i: usize = 0;
    assert(views(out@) + member_pairs(s@) =~= member_pairs(s@));
    while i < s.len()
        invariant
            last <= i <= s.len(),
            views(out@) + member_split(s@, i as int, in_q, last as int) == member_pairs(s@),
        decreases s.len() - i,
    {
        let c = s[i];
        if c == '"' {
            in_q = !in_q;
        } else if c == ',' && !in_q {
            let piece = slice(s, last, i);
            let ghost before = views(out@);
            let ghost rest = member_split(s@, i + 1, in_q, i + 1);
            out.push(piece);
            assert(views(out@) =~= before.push(piece@));
            assert(before + (seq![piece@] + rest) =~= before.push(piece@) + rest);
            last = i + 1;
        }
        i = i + 1;
    }
    if last < s.len() {
        let piece = tail(s, last);
        let ghost before = views(out@);
        out.push(piece);
        assert(views(out@) =~= before.push(piece@));
        assert(before + seq![piece@] =~= before.push(piece@));
    } else {
        assert(views(out@) + Seq::<Seq<char>>::empty() =~= views(out@));
    }
    out
}

// ---------------------------------------------------------------------
// Fixtures
// ---------------------------------------------------------------------

/// One `key: value` part of a fixture line; string values unquoted.
pub open spec fn fixture_pair(part0: Seq<char>) -> Option<(Seq<char>, Seq<char>)> {
    let part = trim(part0);
    match find_char(part, ':') {
        Some(c) => {
            let key = trim(part.subrange(0, c));
            let raw = trim(part.subrange(c + 1, part.len() as int));
            let val = if raw.len() > 0 && raw[0] == '"' {
                or_default(string_literal(raw), raw)
            } else {
                raw
            };
            Some((key, val))
        },
        None => None,
    }
}

pub open spec fn fixture_pairs(parts: Seq<Seq<char>>) -> Seq<(Seq<char>, Seq<char>)>
    decreases parts.len(),
{
    if parts.len() == 0 {
        Seq::empty()
    } else {
        fixture_pairs(parts.drop_last()) + match fixture_pair(parts.last()) {
            Some(p) => seq![p],
            None => Seq::empty(),
        }
    }
}

/// `parse_fixture`'s result.
pub open spec fn fixture_of(line: Seq<char>) -> FixtureModel {
    FixtureModel {
        name: None,
        aggregate_name: or_default(string_literal(line), Seq::empty()),
        attributes: match find_char(line, ',') {
            Some(k) => fixture_pairs(top_level_commas(line.subrange(k + 1, line.len() as int))),
            None => Seq::empty(),
        },
    }
}

fn fixture_pair_exec(part0: &Vec<char>) -> (r: Option<(String, String)>)
    ensures
        opt_view(r) == fixture_pair(part0@),
{
    let part = trim_exec(part0);
    match find_char_exec(&part, ':') {
        Some(c) => {
            let k0 = slice(&part, 0, c);
            let key = trim_exec(&k0);
            let r0 = tail(&part, c + 1);
            let raw = trim_exec(&r0);
            let val = if starts_with_char(&raw, '"') {
                match extract_string_chars(&raw) {
                    Some(v) => v,
                    None => raw,
                }
            } else {
                raw
            };
            Some((string_of(&key), string_of(&val)))
        },
        None => None,
    }
}

fn fixture_pairs_exec(parts: &Vec<Vec<char>>) -> (r: Vec<(String, String)>)
    ensures
        seq_view(r@) == fixture_pairs(views(parts@)),
{
    let mut out: Vec<(String, String)> = Vec::new();
    let mut i: usize = 0;
    while i < parts.len()
        invariant
            i <= parts.len(),
            seq_view(out@) == fixture_pairs(views(parts@).take(i as int)),
        decreases parts.len() - i,
    {
        assert(views(parts@).take(i + 1).drop_last() =~= views(parts@).take(i as int));
        assert(views(parts@).take(i + 1).last() == parts@[i as int]@);
        let ghost before = seq_view(out@);
        match fixture_pair_exec(&parts[i]) {
            Some(p) => {
                out.push(p);
                assert(seq_view(out@) =~= before + seq![p@]);
            },
            None => {
                assert(seq_view(out@) =~= before + Seq::<(Seq<char>, Seq<char>)>::empty());
            },
        }
        i = i + 1;
    }
    assert(views(parts@).take(parts.len() as int) =~= views(parts@));
    out
}

pub fn parse_fixture_chars(line: &Vec<char>) -> (r: Fixture)
    ensures
        r@ == fixture_of(line@),
{
    let name = match extract_string_chars(line) {
        Some(v) => v,
        None => Vec::new(),
    };
    let attributes = match find_char_exec(line, ',') {
        Some(k) => {
            let rest = tail(line, k + 1);
            let parts = split_top_level_commas_chars(&rest);
            fixture_pairs_exec(&parts)
        },
        None => Vec::new(),
    };
    let r = Fixture { name: None, aggregate_name: string_of(&name), attributes };
    proof {
        if find_char(line@, ',') is None {
            assert(seq_view(r.attributes@) =~= Seq::<(Seq<char>, Seq<char>)>::empty());
        }
    }
    r
}

/// Parse `fixture "Agg", key: value, ...` — values may hold commas inside
/// strings, arrays or hashes.
pub fn parse_fixture(line: &str) -> (r: Fixture)
    ensures
        r@ == fixture_of(line@),
{
    let s = chars_of(line);
    parse_fixture_chars(&s)
}


/// One body line of a block-form fixture: `aggregate "X"` names the
/// aggregate; any other lowercase `key value` line adds an attribute.
pub open spec fn fixture_body_line(
    l: Seq<char>,
    agg: Seq<char>,
    attrs: Seq<(Seq<char>, Seq<char>)>,
) -> (Seq<char>, Seq<(Seq<char>, Seq<char>)>) {
    let te = scan(l, Stop::White, 0);
    let key = l.subrange(0, te);
    let rest = trim(l.subrange(te, l.len() as int));
    if key == "aggregate"@ {
        (or_default(string_literal(rest), Seq::empty()), attrs)
    } else if key.len() > 0 && is_ascii_lower(key[0]) {
        let val = if rest.len() > 0 && rest[0] == '"' {
            or_default(string_literal(rest), rest)
        } else {
            rest
        };
        (agg, attrs.push((key, val)))
    } else {
        (agg, attrs)
    }
}

/// Walks a block-form fixture body from line `at + i` at nesting `depth`.
pub open spec fn fixture_body_walk(
    ls: Seq<Seq<char>>,
    at: int,
    i: int,
    depth: int,
    agg: Seq<char>,
    attrs: Seq<(Seq<char>, Seq<char>)>,
) -> (Seq<char>, Seq<(Seq<char>, Seq<char>)>, int)
    decreases ls.len() - (at + i),
{
    if at < 0 || i < 0 || at + i >= ls.len() || depth <= 0 {
        (agg, attrs, i)
    } else {
        let l = trim(ls[at + i]);
        if l == "end"@ {
            if depth - 1 == 0 {
                (agg, attrs, i + 1)
            } else {
                fixture_body_walk(ls, at, i + 1, depth - 1, agg, attrs)
            }
        } else if opens_do_block(l) {
            fixture_body_walk(ls, at, i + 1, depth + 1, agg, attrs)
        } else if depth == 1 && l.len() > 0 && l[0] != '#' {
            let (agg2, attrs2) = fixture_body_line(l, agg, attrs);
            fixture_body_walk(ls, at, i + 1, depth, agg2, attrs2)
        } else {
            fixture_body_walk(ls, at, i + 1, depth, agg, attrs)
        }
    }
}

/// `parse_fixture_block_body`'s result.
pub open spec fn fixture_block_body(ls: Seq<Seq<char>>, at: int) -> (Seq<char>, Seq<(Seq<char>, Seq<char>)>, int) {
    fixture_body_walk(ls, at, 0, 1, Seq::empty(), Seq::empty())
}

pub fn parse_fixture_block_body_chars(lines: &Vec<Vec<char>>, at: usize) -> (r: (String, Vec<(String, String)>, usize))
    requires
        at <= lines.len() < usize::MAX,
    ensures
        (r.0@, seq_view(r.1@), r.2 as int) == fixture_block_body(views(lines@), at as int),
{
    let ghost ls = views(lines@);
    let mut agg: Vec<char> = Vec::new();
    let mut attrs: Vec<(String, String)> = Vec::new();
    let mut depth: usize = 1;
    let mut i: usize = 0;
    while i < lines.len() - at && depth > 0
        invariant
            at <= lines.len(),
            ls == views(lines@),
            lines.len() < usize::MAX,
            i <= lines.len() - at,
            depth <= i + 1,
            fixture_body_walk(ls, at as int, i as int, depth as int, agg@, seq_view(attrs@))
                == fixture_block_body(ls, at as int),
        decreases lines.len() - at - i,
    {
        let l = trim_exec(&lines[at + i]);
        assert(ls[at + i] == lines@[at + i]@);
        if eq_str(&l, "end") {
            depth = depth - 1;
            if depth == 0 {
                i = i + 1;
                return (string_of(&agg), attrs, i);
            }
        } else if ends_with_do_block_chars(&l) {
            depth = depth + 1;
        } else if depth == 1 && l.len() > 0 && l[0] != '#' {
            let te = scan_exec(&l, &Stop::White, 0);
            let key = slice(&l, 0, te);
            let r0 = tail(&l, te);
            let rest = trim_exec(&r0);
            if eq_str(&key, "aggregate") {
                agg = match extract_string_chars(&rest) {
                    Some(v) => v,
                    None => Vec::new(),
                };
            } else if key.len() > 0 && 'a' <= key[0] && key[0] <= 'z' {
                let val = if starts_with_char(&rest, '"') {
                    match extract_string_chars(&rest) {
                        Some(v) => v,
                        None => rest,
                    }
                } else {
                    rest
                };
                attrs.push((string_of(&key), string_of(&val)));
            }
        }
        i = i + 1;
    }
    (string_of(&agg), attrs, i)
}

/// Parse the body of a block-form fixture (the lines after
/// `fixture "X" do`, up to the matching `end`): the aggregate name, the
/// attributes, and the number of lines consumed.
pub fn parse_fixture_block_body(lines: &[&str]) -> (r: (String, Vec<(String, String)>, usize))
    requires
        lines.len() < usize::MAX,
    ensures
        (r.0@, seq_view(r.1@), r.2 as int) == fixture_block_body(strs_view(lines@), 0),
{
    let ls = lines_of(lines);
    parse_fixture_block_body_chars(&ls, 0)
}

// ---------------------------------------------------------------------
// Mutations
// ---------------------------------------------------------------------

pub open spec fn mutation_model(
    field: Seq<char>,
    operation: MutationOp,
    value: Seq<char>,
    invalid_op: Option<Seq<char>>,
) -> MutationModel {
    MutationModel { field, operation, value, invalid_op }
}

/// The positional form `then_set :field, <value>`: a quoted or bare value,
/// or, when the value position holds `word:`, an unknown operation.
pub open spec fn positional_mutation(line: Seq<char>, field: Seq<char>) -> Option<MutationModel> {
    match find_char(line, ':') {
        None => None,
        Some(k) => if k + 1 + field.len() > line.len() {
            None
        } else {
            let after_field = line.subrange(k + 1 + field.len(), line.len() as int);
            match find_char(after_field, ',') {
                None => None,
                Some(c) => {
                    let raw = trim(after_field.subrange(c + 1, after_field.len() as int));
                    let end = scan(raw, Stop::NonLowerWord, 0);
                    if raw.len() > 0 && (is_ascii_lower(raw[0]) || raw[0] == '_') && end < raw.len()
                        && raw[end] == ':' {
                        Some(mutation_model(field, MutationOp::Assign, Seq::empty(), Some(raw.subrange(0, end))))
                    } else {
                        let value = if raw.len() > 0 && raw[0] == '"' {
                            match find_char(raw.drop_first(), '"') {
                                Some(e) => Some(raw.drop_first().subrange(0, e)),
                                None => None,
                            }
                        } else {
                            Some(take_until(raw, Stop::CommaOrWhite))
                        };
                        match value {
                            Some(v) => if v.len() == 0 {
                                None
                            } else {
                                Some(mutation_model(field, MutationOp::Assign, v, None))
                            },
                            None => None,
                        }
                    }
                },
            }
        },
    }
}

/// A mutation with operation `op` whose value follows `key`.
pub open spec fn keyed_mutation(line: Seq<char>, field: Seq<char>, key: Seq<char>, op: MutationOp) -> Option<MutationModel> {
    match after_keyword(line, key) {
        Some(v) => Some(mutation_model(field, op, v, None)),
        None => None,
    }
}

/// `parse_mutation`'s result: the first of the operation keywords present
/// decides the operation; without one, the positional form.
pub open spec fn mutation_of(line: Seq<char>) -> Option<MutationModel> {
    match symbol_of(line) {
        None => None,
        Some(field) => if contains_seq(line, "append_unique:"@) {
            keyed_mutation(line, field, "append_unique:"@, MutationOp::AppendUnique)
        } else if contains_seq(line, "append:"@) {
            keyed_mutation(line, field, "append:"@, MutationOp::Append)
        } else if contains_seq(line, "remove:"@) {
            keyed_mutation(line, field, "remove:"@, MutationOp::Remove)
        } else if contains_seq(line, "increment:"@) {
            keyed_mutation(line, field, "increment:"@, MutationOp::Increment)
        } else if contains_seq(line, "decrement:"@) {
            keyed_mutation(line, field, "decrement:"@, MutationOp::Decrement)
        } else if contains_seq(line, "multiply:"@) {
            keyed_mutation(line, field, "multiply:"@, MutationOp::Multiply)
        } else if contains_seq(line, "clamp:"@) {
            keyed_mutation(line, field, "clamp:"@, MutationOp::Clamp)
        } else if contains_seq(line, "decay:"@) {
            keyed_mutation(line, field, "decay:"@, MutationOp::Decay)
        } else if contains_seq(line, "to:"@) {
            keyed_mutation(line, field, "to:"@, MutationOp::Assign)
        } else if contains_seq(line, "from:"@) {
            keyed_mutation(line, field, "from:"@, MutationOp::Assign)
        } else {
            positional_mutation(line, field)
        },
    }
}

fn keyed_mutation_exec(line: &Vec<char>, field: &Vec<char>, key: &str, op: MutationOp) -> (r: Option<Mutation>)
    ensures
        opt_view(r) == keyed_mutation(line@, field@, key@, op),
{
    let k = chars_of(key);
    match extract_after_chars(line, &k) {
        Some(v) => Some(Mutation { field: string_of(field), operation: op, value: string_of(&v), invalid_op: None }),
        None => None,
    }
}

fn positional_mutation_exec(line: &Vec<char>, field: &Vec<char>) -> (r: Option<Mutation>)
    ensures
        opt_view(r) == positional_mutation(line@, field@),
{
    let k = match find_char_exec(line, ':') {
        Some(k) => k,
        None => return None,
    };
    if field.len() > line.len() - (k + 1) {
        return None;
    }
    let after_field = tail(line, k + 1 + field.len());
    let c = match find_char_exec(&after_field, ',') {
        Some(c) => c,
        None => return None,
    };
    let r0 = tail(&after_field, c + 1);
    let raw = trim_exec(&r0);
    let end = scan_exec(&raw, &Stop::NonLowerWord, 0);
    if raw.len() > 0 && (('a' <= raw[0] && raw[0] <= 'z') || raw[0] == '_') && end < raw.len() && raw[end] == ':' {
        let op = slice(&raw, 0, end);
        return Some(Mutation {
            field: string_of(field),
            operation: MutationOp::Assign,
            value: String::new(),
            invalid_op: Some(string_of(&op)),
        });
    }
    let value = if starts_with_char(&raw, '"') {
        let rest = tail(&raw, 1);
        assert(rest@ =~= raw@.drop_first());
        match find_char_exec(&rest, '"') {
            Some(e) => slice(&rest, 0, e),
            None => return None,
        }
    } else {
        take_until_exec(&raw, &Stop::CommaOrWhite)
    };
    if value.len() == 0 {
        return None;
    }
    Some(Mutation { field: string_of(field), operation: MutationOp::Assign, value: string_of(&value), invalid_op: None })
}

pub fn parse_mutation_chars(line: &Vec<char>) -> (r: Option<Mutation>)
    ensures
        opt_view(r) == mutation_of(line@),
{
    let field = match extract_symbol_chars(line) {
        Some(f) => f,
        None => return None,
    };
    if contains_str(line, "append_unique:") {
        keyed_mutation_exec(line, &field, "append_unique:", MutationOp::AppendUnique)
    } else if contains_str(line, "append:") {
        keyed_mutation_exec(line, &field, "append:", MutationOp::Append)
    } else if contains_str(line, "remove:") {
        keyed_mutation_exec(line, &field, "remove:", MutationOp::Remove)
    } else if contains_str(line, "increment:") {
        keyed_mutation_exec(line, &field, "increment:", MutationOp::Increment)
    } else if contains_str(line, "decrement:") {
        keyed_mutation_exec(line, &field, "decrement:", MutationOp::Decrement)
    } else if contains_str(line, "multiply:") {
        keyed_mutation_exec(line, &field, "multiply:", MutationOp::Multiply)
    } else if contains_str(line, "clamp:") {
        keyed_mutation_exec(line, &field, "clamp:", MutationOp::Clamp)
    } else if contains_str(line, "decay:") {
        keyed_mutation_exec(line, &field, "decay:", MutationOp::Decay)
    } else if contains_str(line, "to:") {
        keyed_mutation_exec(line, &field, "to:", MutationOp::Assign)
    } else if contains_str(line, "from:") {
        keyed_mutation_exec(line, &field, "from:", MutationOp::Assign)
    } else {
        positional_mutation_exec(line, &field)
    }
}

/// Parse a `then_set :field, <op>: value` line.
pub fn parse_mutation(line: &str) -> (r: Option<Mutation>)
    ensures
        opt_view(r) == mutation_of(line@),
{
    let s = chars_of(line);
    parse_mutation_chars(&s)
}

// ---------------------------------------------------------------------
// Lifecycles
// ---------------------------------------------------------------------

/// The state tokens among the pieces, in order.
pub open spec fn tokens_of(parts: Seq<Seq<char>>) -> Seq<Seq<char>>
    decreases parts.len(),
{
    if parts.len() == 0 {
        Seq::empty()
    } else {
        tokens_of(parts.drop_last()) + match state_token(parts.last()) {
            Some(v) => seq![v],
            None => Seq::empty(),
        }
    }
}

fn tokens_of_exec(parts: &Vec<Vec<char>>) -> (r: Vec<Vec<char>>)
    ensures
        views(r@) == tokens_of(views(parts@)),
{
    let mut out: Vec<Vec<char>> = Vec::new();
    let mut i: usize = 0;
    while i < parts.len()
        invariant
            i <= parts.len(),
            views(out@) == tokens_of(views(parts@).take(i as int)),
        decreases parts.len() - i,
    {
        assert(views(parts@).take(i + 1).drop_last() =~= views(parts@).take(i as int));
        assert(views(parts@).take(i + 1).last() == parts@[i as int]@);
        let ghost before = views(out@);
        match extract_state_token_chars(&parts[i]) {
            Some(v) => {
                out.push(v);
                assert(views(out@) =~= before + seq![v@]);
            },
            None => {
                assert(views(out@) =~= before + Seq::<Seq<char>>::empty());
            },
        }
        i = i + 1;
    }
    assert(views(parts@).take(parts.len() as int) =~= views(parts@));
    out
}

/// The `from:` states of a transition line: one per array element (or
/// the single token); `[None]` when there is none.
pub open spec fn from_states(line: Seq<char>) -> Seq<Option<Seq<char>>> {
    if contains_seq(line, "from:"@) {
        let after = or_default(after_keyword(line, "from:"@), Seq::empty());
        let trimmed = trim_start(after);
        if trimmed.len() > 0 && trimmed[0] == '[' {
            let close = match find_char(trimmed, ']') {
                Some(c) => c,
                None => trimmed.len() as int,
            };
            let found = if close < 1 {
                Seq::empty()
            } else {
                tokens_of(split_char(trimmed.subrange(1, close), ','))
            };
            if found.len() == 0 {
                seq![None]
            } else {
                found.map_values(|t: Seq<char>| Some(t))
            }
        } else {
            seq![state_token(after)]
        }
    } else {
        seq![None]
    }
}

fn from_states_exec(line: &Vec<char>) -> (r: Vec<Option<Vec<char>>>)
    ensures
        opt_seq_view(r@) == from_states(line@),
{
    if !contains_str(line, "from:") {
        let r = vec![None];
        assert(opt_seq_view(r@) =~= seq![None::<Seq<char>>]);
        return r;
    }
    let k = chars_of("from:");
    let after = match extract_after_chars(line, &k) {
        Some(a) => a,
        None => Vec::new(),
    };
    let trimmed = trim_start_exec(&after);
    if starts_with_char(&trimmed, '[') {
        let close = match find_char_exec(&trimmed, ']') {
            Some(c) => c,
            None => trimmed.len(),
        };
        let found = if close < 1 {
            Vec::new()
        } else {
            let inner = slice(&trimmed, 1, close);
            let parts = split_char_exec(&inner, ',');
            tokens_of_exec(&parts)
        };
        if found.len() == 0 {
            let r = vec![None];
            assert(opt_seq_view(r@) =~= seq![None::<Seq<char>>]);
            return r;
        }
        let mut r: Vec<Option<Vec<char>>> = Vec::new();
        let mut j: usize = 0;
        while j < found.len()
            invariant
                j <= found.len(),
                r@.len() == j,
                opt_seq_view(r@) == views(found@).take(j as int).map_values(|t: Seq<char>| Some(t)),
            decreases found.len() - j,
        {
            let c = found[j].clone();
            assert(c@ =~= found@[j as int]@);
            let ghost prev = r@;
            r.push(Some(c));
            proof {
                let a = opt_seq_view(r@);
                let b = views(found@).take(j + 1).map_values(|t: Seq<char>| Some(t));
                assert(r@ == prev.push(Some(c)));
                assert forall|k: int| 0 <= k < a.len() implies a[k] == b[k] by {
                    if k < j {
                        assert(r@[k] == prev[k]);
                        assert(opt_seq_view(prev)[k] == views(found@).take(j as int).map_values(|t: Seq<char>| Some(t))[k]);
                    }
                }
                assert(a =~= b);
            }
            j = j + 1;
        }
        assert(views(found@).take(found.len() as int) =~= views(found@));
        r
    } else {
        let t = extract_state_token_chars(&after);
        let r = vec![t];
        assert(opt_seq_view(r@) =~= seq![opt_view(t)]);
        r
    }
}

/// The target state after `=>`.
pub open spec fn to_state(line: Seq<char>) -> Option<Seq<char>> {
    match find_seq(line, "=>"@) {
        Some(a) => state_token(line.subrange(a + 2, line.len() as int)),
        None => None,
    }
}

proof fn lemma_arrow_len()
    ensures
        "=>"@.len() == 2,
{
    reveal_strlit("=>");
}

fn to_state_exec(line: &Vec<char>) -> (r: Option<Vec<char>>)
    ensures
        opt_view(r) == to_state(line@),
{
    proof { lemma_arrow_len(); }
    match find_str(line, "=>") {
        Some(a) => {
            let rest = tail(line, a + 2);
            extract_state_token_chars(&rest)
        },
        None => None,
    }
}

/// The transitions a lifecycle body line adds.
pub open spec fn line_transitions(line: Seq<char>) -> Seq<TransitionModel> {
    if starts_with(line, "transition"@) {
        match (string_literal(line), to_state(line)) {
            (Some(cmd), Some(to)) => from_states(line).map_values(
                |f: Option<Seq<char>>| TransitionModel { command: cmd, to_state: to, from_state: f },
            ),
            _ => Seq::empty(),
        }
    } else {
        Seq::empty()
    }
}

fn push_line_transitions(line: &Vec<char>, out: &mut Vec<Transition>)
    ensures
        seq_view(final(out)@) == seq_view(old(out)@) + line_transitions(line@),
{
    if !starts_with_str(line, "transition") {
        assert(seq_view(out@) + Seq::<TransitionModel>::empty() =~= seq_view(out@));
        return;
    }
    let cmd = match extract_string_chars(line) {
        Some(c) => c,
        None => {
            assert(seq_view(out@) + Seq::<TransitionModel>::empty() =~= seq_view(out@));
            return;
        },
    };
    let to = match to_state_exec(line) {
        Some(t) => t,
        None => {
            assert(seq_view(out@) + Seq::<TransitionModel>::empty() =~= seq_view(out@));
            return;
        },
    };
    let froms = from_states_exec(line);
    let ghost start = seq_view(out@);
    let ghost all = line_transitions(line@);
    let mut j: usize = 0;
    while j < froms.len()
        invariant
            j <= froms.len(),
            all == opt_seq_view(froms@).map_values(
                |f: Option<Seq<char>>| TransitionModel { command: cmd@, to_state: to@, from_state: f },
            ),
            seq_view(out@) == start + all.take(j as int),
        decreases froms.len() - j,
    {
        let from_state = match &froms[j] {
            Some(f) => Some(string_of(f)),
            None => None,
        };
        out.push(Transition { command: string_of(&cmd), to_state: string_of(&to), from_state });
        assert(seq_view(out@) =~= start + all.take(j + 1));
        j = j + 1;
    }
    assert(all.take(froms.len() as int) =~= all);
}

/// Walks a lifecycle block's body lines from `at + i` until `end`.
pub open spec fn lifecycle_walk(ls: Seq<Seq<char>>, at: int, i: int, trs: Seq<TransitionModel>) -> (Seq<TransitionModel>, int)
    decreases ls.len() - (at + i),
{
    if at < 0 || i < 0 || at + i >= ls.len() {
        (trs, i + 1)
    } else {
        let line = trim(ls[at + i]);
        if line == "end"@ {
            (trs, i + 1)
        } else {
            lifecycle_walk(ls, at, i + 1, trs + line_transitions(line))
        }
    }
}

/// The lifecycle's `default:` state.
pub open spec fn lifecycle_default(first: Seq<char>) -> Seq<char> {
    if contains_seq(first, "default:"@) {
        or_default(state_token(or_default(after_keyword(first, "default:"@), Seq::empty())), Seq::empty())
    } else {
        Seq::empty()
    }
}

/// `parse_lifecycle`'s result for the block opening at `ls[at]`.
pub open spec fn lifecycle_block(ls: Seq<Seq<char>>, at: int) -> (LifecycleModel, int) {
    let first = trim(ls[at]);
    let (trs, n) = lifecycle_walk(ls, at, 1, Seq::empty());
    (
        LifecycleModel {
            field: or_default(symbol_of(first), Seq::empty()),
            default: lifecycle_default(first),
            transitions: trs,
        },
        n,
    )
}

pub fn parse_lifecycle_chars(lines: &Vec<Vec<char>>, at: usize) -> (r: (Lifecycle, usize))
    requires
        at < lines.len() < usize::MAX,
    ensures
        (r.0@, r.1 as int) == lifecycle_block(views(lines@), at as int),
        2 <= r.1 <= lines.len() + 1 - at,
{
    let ghost ls = views(lines@);
    let first = trim_exec(&lines[at]);
    assert(ls[at as int] == lines@[at as int]@);
    let field = match extract_symbol_chars(&first) {
        Some(f) => f,
        None => Vec::new(),
    };
    let default = if contains_str(&first, "default:") {
        let k = chars_of("default:");
        let after = match extract_after_chars(&first, &k) {
            Some(a) => a,
            None => Vec::new(),
        };
        match extract_state_token_chars(&after) {
            Some(t) => t,
            None => Vec::new(),
        }
    } else {
        Vec::new()
    };
    let mut transitions: Vec<Transition> = Vec::new();
    let mut i: usize = 1;
    while i < lines.len() - at
        invariant
            at < lines.len(),
            ls == views(lines@),
            1 <= i <= lines.len() - at,
            lifecycle_walk(ls, at as int, i as int, seq_view(transitions@))
                == lifecycle_walk(ls, at as int, 1, Seq::empty()),
        ensures
            1 <= i <= lines.len() - at,
            lifecycle_walk(ls, at as int, i as int, seq_view(transitions@))
                == lifecycle_walk(ls, at as int, 1, Seq::empty()),
            i == lines.len() - at || trim(ls[at + i]) == "end"@,
        decreases lines.len() - at - i,
    {
        let line = trim_exec(&lines[at + i]);
        assert(ls[at + i] == lines@[at + i]@);
        if eq_str(&line, "end") {
            break;
        }
        push_line_transitions(&line, &mut transitions);
        i = i + 1;
    }
    (Lifecycle { field: string_of(&field), default: string_of(&default), transitions }, i + 1)
}

/// Parse a `lifecycle :field, default: "x" do ... end` block (or the
/// attribute-with-lifecycle sugar, read the same way).
pub fn parse_lifecycle(lines: &[&str]) -> (r: (Lifecycle, usize))
    requires
        0 < lines.len() < usize::MAX,
    ensures
        (r.0@, r.1 as int) == lifecycle_block(strs_view(lines@), 0),
{
    let ls = lines_of(lines);
    parse_lifecycle_chars(&ls, 0)
}


pub proof fn lemma_lifecycle_walk(ls: Seq<Seq<char>>, at: int, i: int, trs: Seq<TransitionModel>)
    requires
        0 <= at,
        1 <= i,
        at + i <= ls.len(),
    ensures
        i + 1 <= lifecycle_walk(ls, at, i, trs).1 <= ls.len() + 1 - at,
    decreases ls.len() - (at + i),
{
    if at + i < ls.len() {
        let line = trim(ls[at + i]);
        if line != "end"@ {
            lemma_lifecycle_walk(ls, at, i + 1, trs + line_transitions(line));
        }
    }
}

/// A lifecycle block takes at least two lines' worth and at most what
/// follows its opener plus one.
pub proof fn lemma_lifecycle_block(ls: Seq<Seq<char>>, at: int)
    requires
        0 <= at < ls.len(),
    ensures
        2 <= lifecycle_block(ls, at).1 <= ls.len() + 1 - at,
{
    lemma_lifecycle_walk(ls, at, 1, Seq::empty());
}

} // verus!

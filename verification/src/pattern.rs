//! The regex subset a `pattern:` may use: the constructs whose meaning is
//! the same in Ruby's `Regexp` and Rust's `regex` crate. Lookaround,
//! backreferences, atomic groups and possessive quantifiers are refused.
//! The check is syntactic: it reads the pattern text, never compiles it.

use vstd::prelude::*;
use crate::text::{chars_of};

verus! {

/// The constructs a pattern may not use.
#[derive(Debug, Clone, Copy, PartialEq, Eq, Structural)]
pub enum Construct {
    Backreference,
    NamedBackreference,
    Lookahead,
    Lookbehind,
    AtomicGroup,
    PossessiveQuantifier,
}

/// Why a pattern was refused: the offending construct, named, and why the
/// two engines would disagree about it.
#[derive(Debug, Clone, PartialEq)]
pub struct PatternRejection {
    pub construct: &'static str,
    pub reason: &'static str,
}

pub open spec fn construct_name(k: Construct) -> Seq<char> {
    match k {
        Construct::Backreference => "backreference"@,
        Construct::NamedBackreference => "named backreference"@,
        Construct::Lookahead => "lookahead"@,
        Construct::Lookbehind => "lookbehind"@,
        Construct::AtomicGroup => "atomic group"@,
        Construct::PossessiveQuantifier => "possessive quantifier"@,
    }
}

/// Why the two engines would disagree about construct `k`.
pub open spec fn reason_text(k: Construct) -> Seq<char> {
    match k {
        Construct::Backreference => "Rust's regex crate has no backreferences (they cannot be matched in linear time) ; Ruby does, so the two engines would disagree"@,
        Construct::NamedBackreference => "Rust's regex crate has no backreferences ; Ruby does"@,
        Construct::Lookahead => "Rust's regex crate has no lookahead (it cannot be matched in linear time) ; Ruby does, so the two engines would disagree"@,
        Construct::Lookbehind => "Rust's regex crate has no lookbehind ; Ruby does"@,
        Construct::AtomicGroup => "Ruby-only : Rust's regex crate rejects `(?>` as a syntax error"@,
        Construct::PossessiveQuantifier => "Ruby-only : Rust's regex crate rejects it as a syntax error"@,
    }
}

impl PatternRejection {
    /// The rejection message for construct `k`.
    pub fn new(k: Construct) -> (r: PatternRejection)
        ensures
            r.construct@ == construct_name(k),
            r.reason@ == reason_text(k),
    {
        match k {
            Construct::Backreference => PatternRejection {
                construct: "backreference",
                reason: "Rust's regex crate has no backreferences (they cannot be matched in linear time) ; Ruby does, so the two engines would disagree",
            },
            Construct::NamedBackreference => PatternRejection {
                construct: "named backreference",
                reason: "Rust's regex crate has no backreferences ; Ruby does",
            },
            Construct::Lookahead => PatternRejection {
                construct: "lookahead",
                reason: "Rust's regex crate has no lookahead (it cannot be matched in linear time) ; Ruby does, so the two engines would disagree",
            },
            Construct::Lookbehind => PatternRejection {
                construct: "lookbehind",
                reason: "Rust's regex crate has no lookbehind ; Ruby does",
            },
            Construct::AtomicGroup => PatternRejection {
                construct: "atomic group",
                reason: "Ruby-only : Rust's regex crate rejects `(?>` as a syntax error",
            },
            Construct::PossessiveQuantifier => PatternRejection {
                construct: "possessive quantifier",
                reason: "Ruby-only : Rust's regex crate rejects it as a syntax error",
            },
        }
    }
}

/// The character at `i`, if any.
pub open spec fn at(s: Seq<char>, i: int) -> Option<char> {
    if 0 <= i < s.len() {
        Some(s[i])
    } else {
        None
    }
}

/// The first refused construct at or after `i`, reading the pattern left
/// to right. An escape `\c` consumes `c`: `\1`..`\9` is a backreference,
/// `\k` and `\g` a named one, any other escape a literal. `(?=` and `(?!`
/// are lookahead, `(?<=` and `(?<!` lookbehind, `(?>` an atomic group,
/// and `*+`, `++`, `?+` possessive quantifiers.
pub open spec fn refused_from(s: Seq<char>, i: int) -> Option<Construct>
    decreases s.len() - i,
{
    if i < 0 || i >= s.len() {
        None
    } else if s[i] == '\\' {
        match at(s, i + 1) {
            Some(n) => if '1' <= n && n <= '9' {
                Some(Construct::Backreference)
            } else if n == 'k' || n == 'g' {
                Some(Construct::NamedBackreference)
            } else {
                refused_from(s, i + 2)
            },
            None => refused_from(s, i + 1),
        }
    } else if s[i] == '(' && at(s, i + 1) == Some('?') && (at(s, i + 2) == Some('=') || at(s, i + 2)
        == Some('!')) {
        Some(Construct::Lookahead)
    } else if s[i] == '(' && at(s, i + 1) == Some('?') && at(s, i + 2) == Some('<') && (at(s, i + 3)
        == Some('=') || at(s, i + 3) == Some('!')) {
        Some(Construct::Lookbehind)
    } else if s[i] == '(' && at(s, i + 1) == Some('?') && at(s, i + 2) == Some('>') {
        Some(Construct::AtomicGroup)
    } else if (s[i] == '*' || s[i] == '+' || s[i] == '?') && at(s, i + 1) == Some('+') {
        Some(Construct::PossessiveQuantifier)
    } else {
        refused_from(s, i + 1)
    }
}

/// The first refused construct of the pattern, if any.
pub open spec fn refused(s: Seq<char>) -> Option<Construct> {
    refused_from(s, 0)
}

fn at_exec(s: &Vec<char>, i: usize) -> (r: Option<char>)
    ensures
        r == at(s@, i as int),
{
    if i < s.len() {
        Some(s[i])
    } else {
        None
    }
}

pub fn refused_chars(s: &Vec<char>) -> (r: Option<Construct>)
    ensures
        r == refused(s@),
{
    let mut i: usize = 0;
    while i < s.len()
        invariant
            refused_from(s@, i as int) == refused(s@),
        decreases s.len() - i,
    {
        let c = s[i];
        if c == '\\' {
            if i + 1 < s.len() {
                let n = s[i + 1];
                if '1' <= n && n <= '9' {
                    return Some(Construct::Backreference);
                }
                if n == 'k' || n == 'g' {
                    return Some(Construct::NamedBackreference);
                }
                i = i + 2;
            } else {
                i = i + 1;
            }
            continue;
        }
        let n1 = if i < usize::MAX { at_exec(s, i + 1) } else { None };
        let n2 = if i < usize::MAX - 1 { at_exec(s, i + 2) } else { None };
        let n3 = if i < usize::MAX - 2 { at_exec(s, i + 3) } else { None };
        if c == '(' && n1 == Some('?') && (n2 == Some('=') || n2 == Some('!')) {
            return Some(Construct::Lookahead);
        }
        if c == '(' && n1 == Some('?') && n2 == Some('<') && (n3 == Some('=') || n3 == Some('!')) {
            return Some(Construct::Lookbehind);
        }
        if c == '(' && n1 == Some('?') && n2 == Some('>') {
            return Some(Construct::AtomicGroup);
        }
        if (c == '*' || c == '+' || c == '?') && n1 == Some('+') {
            return Some(Construct::PossessiveQuantifier);
        }
        i = i + 1;
    }
    None
}

/// Refuse any construct whose meaning differs between Ruby and Rust.
/// `Ok(())` for a pattern both engines treat identically; otherwise the
/// first refused construct, reading left to right.
pub fn validate_pattern_subset(pattern: &str) -> (r: Result<(), PatternRejection>)
    ensures
        r is Ok <==> refused(pattern@) is None,
        r matches Err(e) ==> e.construct@ == construct_name(refused(pattern@)->0),
        r matches Err(e) ==> e.reason@ == reason_text(refused(pattern@)->0),
{
    let s = chars_of(pattern);
    match refused_chars(&s) {
        None => Ok(()),
        Some(k) => Err(PatternRejection::new(k)),
    }
}

/// A pattern with no backslash, no `(` and no `+` uses none of the refused
/// constructs: every one of them needs one of those three characters.
pub proof fn law_plain_pattern_admitted(s: Seq<char>)
    requires
        forall|i: int| 0 <= i < s.len() ==> #[trigger] s[i] != '\\' && s[i] != '(' && s[i] != '+',
    ensures
        refused(s) is None,
{
    lemma_plain_from(s, 0);
}

proof fn lemma_plain_from(s: Seq<char>, i: int)
    requires
        0 <= i,
        forall|j: int| 0 <= j < s.len() ==> #[trigger] s[j] != '\\' && s[j] != '(' && s[j] != '+',
    ensures
        refused_from(s, i) is None,
    decreases s.len() - i,
{
    if i < s.len() {
        assert(s[i] != '\\' && s[i] != '(');
        if i + 1 < s.len() {
            assert(s[i + 1] != '+');
        }
        lemma_plain_from(s, i + 1);
    }
}

/// What follows an escaped character never changes whether the escape is
/// refused: `\c` with `c` not `1`..`9`, `k` or `g` is a literal, and the
/// verdict is that of the rest of the pattern.
pub proof fn law_escape_is_literal(s: Seq<char>, i: int)
    requires
        0 <= i,
        i + 1 < s.len(),
        s[i] == '\\',
        !('1' <= s[i + 1] && s[i + 1] <= '9'),
        s[i + 1] != 'k',
        s[i + 1] != 'g',
    ensures
        refused_from(s, i) == refused_from(s, i + 2),
{
}

} // verus!

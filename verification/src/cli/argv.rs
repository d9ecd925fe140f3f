//! Reading the command line: the being a binary is named for, a bare
//! `Aggregate.Command` address, and symbol or quoted configuration values.

use vstd::prelude::*;
use crate::text::{Stop, chars_of, contains_char, contains_char_exec, eq_str, split_once, split_once_exec, string_of, strip_both, strip_both_exec, tail, trim, trim_exec, is_ascii_upper};

verus! {

/// What `Path::file_name` gives for a path: its last normal component,
/// if any.
pub uninterp spec fn path_file_name(p: Seq<char>) -> Option<Seq<char>>;

/// Calls std's `Path::file_name` (and `OsStr::to_str`); the component is
/// named by `path_file_name`, a function of the path text alone.
#[verifier::external_body]
fn file_name(p: &str) -> (r: Option<String>)
    ensures
        match r {
            Some(n) => path_file_name(p@) == Some(n@),
            None => path_file_name(p@) is None,
        },
{
    std::path::Path::new(p).file_name().and_then(|n| n.to_str()).map(|n| n.to_string())
}

/// The being a binary speaks as: `Summer` for a binary named `summer`,
/// `Miette` otherwise.
pub open spec fn being_named(argv0: Seq<char>) -> Seq<char> {
    match path_file_name(argv0) {
        Some(n) => if n == "summer"@ { "Summer"@ } else { "Miette"@ },
        None => "Miette"@,
    }
}

/// The being named by the binary's file name.
pub fn being_from_argv0(argv0: &str) -> (r: String)
    ensures
        r@ == being_named(argv0@),
{
    let summer = match file_name(argv0) {
        Some(n) => eq_str(&chars_of(n.as_str()), "summer"),
        None => false,
    };
    if summer { string_of(&chars_of("Summer")) } else { string_of(&chars_of("Miette")) }
}

/// `Head.Tail` with both halves starting with an ASCII capital and no
/// path separator anywhere: an address, not a file.
pub open spec fn aggregate_command_shape(s: Seq<char>) -> bool {
    match split_once(s, '.') {
        None => false,
        Some((head, rest)) => {
            &&& head.len() > 0
            &&& rest.len() > 0
            &&& is_ascii_upper(head[0])
            &&& is_ascii_upper(rest[0])
            &&& !contains_char(s, '/')
            &&& !contains_char(s, '\\')
        },
    }
}

/// Whether a first argument reads as `Aggregate.Command`.
pub fn looks_like_aggregate_command(s: &str) -> (r: bool)
    ensures
        r == aggregate_command_shape(s@),
{
    let v = chars_of(s);
    let (head, rest) = match split_once_exec(&v, '.') {
        Some(p) => p,
        None => return false,
    };
    if head.len() == 0 || rest.len() == 0 {
        return false;
    }
    if !('A' <= head[0] && head[0] <= 'Z') || !('A' <= rest[0] && rest[0] <= 'Z') {
        return false;
    }
    !contains_char_exec(&v, '/') && !contains_char_exec(&v, '\\')
}

/// A configuration value as text: trimmed, then a leading `:` dropped,
/// or else surrounding `"` and then `'` stripped.
pub open spec fn bare_value(v: Seq<char>) -> Seq<char> {
    let t = trim(v);
    if t.len() > 0 && t[0] == ':' {
        t.subrange(1, t.len() as int)
    } else {
        strip_both(strip_both(t, Stop::Other('"')), Stop::Other('\''))
    }
}

/// `:symbol` → `symbol`, `"text"` → `text`.
pub fn strip_symbol_or_quotes(v: &str) -> (r: String)
    ensures
        r@ == bare_value(v@),
{
    let t = trim_exec(&chars_of(v));
    if t.len() > 0 && t[0] == ':' {
        return string_of(&tail(&t, 1));
    }
    let a = strip_both_exec(&t, &Stop::Other('"'));
    string_of(&strip_both_exec(&a, &Stop::Other('\'')))
}

} // verus!

//! The terminal palette of the dispatch log: ANSI colour escapes, the
//! colour of each event kind, and the removal of escapes for plain text.

use vstd::prelude::*;
use crate::text::{chars_of, eq_str, string_of};

verus! {

/// The colours the log is painted with.
#[derive(Clone, Copy, PartialEq, Eq, Structural)]
pub enum Colour {
    Reset,
    Dim,
    Cyan,
    Green,
    Yellow,
    Magenta,
    BrightRed,
}

/// The SGR escape of a colour.
pub open spec fn code(c: Colour) -> Seq<char> {
    match c {
        Colour::Reset => seq!['\x1b', '[', '0', 'm'],
        Colour::Dim => seq!['\x1b', '[', '2', 'm'],
        Colour::Cyan => seq!['\x1b', '[', '3', '6', 'm'],
        Colour::Green => seq!['\x1b', '[', '3', '2', 'm'],
        Colour::Yellow => seq!['\x1b', '[', '3', '3', 'm'],
        Colour::Magenta => seq!['\x1b', '[', '3', '5', 'm'],
        Colour::BrightRed => seq!['\x1b', '[', '9', '1', 'm'],
    }
}

fn sgr(a: char, b: Option<char>) -> (r: Vec<char>)
    ensures
        r@ == (match b {
            Some(x) => seq!['\x1b', '[', a, x, 'm'],
            None => seq!['\x1b', '[', a, 'm'],
        }),
{
    let mut r: Vec<char> = Vec::new();
    r.push('\x1b');
    r.push('[');
    r.push(a);
    match b {
        Some(x) => r.push(x),
        None => {},
    }
    r.push('m');
    r
}

/// The escape that switches to `c`.
pub fn colour_code(c: Colour) -> (r: Vec<char>)
    ensures
        r@ == code(c),
{
    match c {
        Colour::Reset => sgr('0', None),
        Colour::Dim => sgr('2', None),
        Colour::Cyan => sgr('3', Some('6')),
        Colour::Green => sgr('3', Some('2')),
        Colour::Yellow => sgr('3', Some('3')),
        Colour::Magenta => sgr('3', Some('5')),
        Colour::BrightRed => sgr('9', Some('1')),
    }
}

/// The colour of an event kind: failures red, dispatches cyan, events and
/// cascades green, policies magenta, anything else dim.
pub open spec fn kind_colour(kind: Seq<char>, ok: bool) -> Colour {
    if !ok {
        Colour::BrightRed
    } else if kind == "dispatch"@ {
        Colour::Cyan
    } else if kind == "event"@ || kind == "cascade"@ {
        Colour::Green
    } else if kind == "policy"@ {
        Colour::Magenta
    } else {
        Colour::Dim
    }
}

pub fn colour_for(kind: &str, ok: bool) -> (r: Colour)
    ensures
        r == kind_colour(kind@, ok),
{
    let k = chars_of(kind);
    if !ok {
        Colour::BrightRed
    } else if eq_str(&k, "dispatch") {
        Colour::Cyan
    } else if eq_str(&k, "event") || eq_str(&k, "cascade") {
        Colour::Green
    } else if eq_str(&k, "policy") {
        Colour::Magenta
    } else {
        Colour::Dim
    }
}

/// The final character of a control sequence (`@` through `~`).
pub open spec fn is_final(c: char) -> bool {
    '@' <= c && c <= '~'
}

/// Index just past the control sequence whose parameters start at `i`.
pub open spec fn csi_end(s: Seq<char>, i: int) -> int
    decreases s.len() - i,
{
    if i < 0 || i >= s.len() {
        s.len() as int
    } else if is_final(s[i]) {
        i + 1
    } else {
        csi_end(s, i + 1)
    }
}

pub proof fn lemma_csi_end(s: Seq<char>, i: int)
    requires
        0 <= i <= s.len(),
    ensures
        i <= csi_end(s, i) <= s.len(),
    decreases s.len() - i,
{
    if i < s.len() && !is_final(s[i]) {
        lemma_csi_end(s, i + 1);
    }
}

/// The text from `i` on with every `ESC [ ... final` sequence removed.
pub open spec fn plain_from(s: Seq<char>, i: int) -> Seq<char>
    decreases s.len() - i,
{
    if i < 0 || i >= s.len() {
        Seq::empty()
    } else if s[i] == '\x1b' && i + 1 < s.len() && s[i + 1] == '[' {
        let j = csi_end(s, i + 2);
        if j <= i || j > s.len() { Seq::empty() } else { plain_from(s, j) }
    } else {
        seq![s[i]] + plain_from(s, i + 1)
    }
}

/// The text without its colour escapes.
pub fn strip_ansi(s: &str) -> (r: String)
    ensures
        r@ == plain_from(s@, 0),
{
    let v = chars_of(s);
    let mut out: Vec<char> = Vec::new();
    let mut i: usize = 0;
    assert(out@ + plain_from(v@, 0) =~= plain_from(s@, 0));
    while i < v.len()
        invariant
            v@ == s@,
            i <= v.len(),
            out@ + plain_from(v@, i as int) == plain_from(s@, 0),
        decreases v.len() - i,
    {
        if v[i] == '\x1b' && i + 1 < v.len() && v[i + 1] == '[' {
            proof { lemma_csi_end(v@, i + 2); }
            let mut j = i + 2;
            while j < v.len() && !('@' <= v[j] && v[j] <= '~')
                invariant
                    i + 2 <= j <= v.len(),
                    csi_end(v@, j as int) == csi_end(v@, i + 2),
                decreases v.len() - j,
            {
                j = j + 1;
            }
            if j < v.len() {
                j = j + 1;
            }
            i = j;
        } else {
            let ghost o = out@;
            out.push(v[i]);
            assert(o + (seq![v@[i as int]] + plain_from(v@, i + 1)) =~= out@ + plain_from(v@, i + 1));
            i = i + 1;
        }
    }
    assert(out@ + Seq::<char>::empty() =~= out@);
    string_of(&out)
}

} // verus!

//! The macrophage's reading of a Bash command: does it write a
//! kernel-surface file (`.rb`, `.rs`, `.sh`, `.py`), and which one?
//!
//! The scan walks the command's UTF-8 bytes, reading each byte as the
//! character with that code.

use vstd::prelude::*;
use vstd::utf8::*;
use vstd::string::StringSliceAdditionalSpecFns;
use crate::text::{char_is_whitespace, chars_of, is_white, strip_both, strip_both_exec, words, words_exec, views, Stop};
use crate::run_follow::events::{field, field_exec, parse_json, parsed_json, str_field, str_field_exec, Json};

verus! {

broadcast use vstd::utf8::encode_utf8_valid_utf8, vstd::utf8::encode_utf8_decode_utf8;

/// What the scan concludes.
pub enum Verdict {
    /// A write to this path.
    Target(Seq<char>),
    /// No write to a kernel-surface file.
    Clear,
    /// The hook cuts the command inside a character and panics.
    Fault,
}

/// Whether a scan result agrees with what the scan concludes: a path for
/// a write, nothing for no write, an error where the hook panics.
pub open spec fn scan_says(r: Result<Option<String>, ()>, v: Verdict) -> bool {
    match r {
        Ok(Some(t)) => v == Verdict::Target(t@),
        Ok(None) => v == Verdict::Clear,
        Err(_) => v == Verdict::Fault,
    }
}

/// A UTF-8 continuation byte: never the first byte of a character.
pub open spec fn cont(x: u8) -> bool {
    0x80 <= x && x <= 0xbf
}

/// A byte index at which `str` may be cut.
pub open spec fn cut_ok(b: Seq<u8>, k: int) -> bool {
    k == b.len() || (0 <= k < b.len() && !cont(b[k]))
}

/// `char::is_whitespace` of the character with the byte's number.
pub open spec fn byte_white(x: u8) -> bool {
    is_white(x as char)
}

pub open spec fn is_quote(x: u8) -> bool {
    x == 0x27 || x == 0x22
}

/// The two letters after a `.` that make a kernel-surface extension.
pub open spec fn ext_pair(x: u8, y: u8) -> bool {
    (x == 0x72 && (y == 0x62 || y == 0x73)) || (x == 0x73 && y == 0x68) || (x == 0x70 && y == 0x79)
}

/// `.rb`, `.rs`, `.sh` or `.py` starts at byte `k`.
pub open spec fn ext_at(b: Seq<u8>, k: int) -> bool {
    0 <= k && k + 3 <= b.len() && b[k] == 0x2e && ext_pair(b[k + 1], b[k + 2])
}

/// The command mentions a kernel-surface extension anywhere.
pub open spec fn mentions_kernel(b: Seq<u8>) -> bool {
    exists|k: int| #[trigger] ext_at(b, k)
}

/// The bytes `b[s..e]` end in a kernel-surface extension.
pub open spec fn kernel_bytes(b: Seq<u8>, s: int, e: int) -> bool {
    s + 3 <= e && ext_at(b, e - 3)
}

/// The text ends in `.rb`, `.rs`, `.sh` or `.py`.
pub open spec fn kernel_text(t: Seq<char>) -> bool {
    let n = t.len() as int;
    n >= 3 && t[n - 3] == '.' && ((t[n - 2] == 'r' && (t[n - 1] == 'b' || t[n - 1] == 's'))
        || (t[n - 2] == 's' && t[n - 1] == 'h') || (t[n - 2] == 'p' && t[n - 1] == 'y'))
}

/// The byte after an ASCII byte begins a character.
proof fn lemma_after_ascii(b: Seq<u8>, k: int)
    requires
        valid_utf8(b),
        0 < k <= b.len(),
        b[k - 1] < 0x80,
    ensures
        is_char_boundary(b, k),
    decreases b.len(),
{
    let l = length_of_first_scalar(b);
    assert(valid_first_scalar(b) && valid_utf8(pop_first_scalar(b)));
    if k - 1 < l {
        if k - 1 > 0 {
            is_char_boundary_iff_not_is_continuation_byte(b, k - 1);
            reveal_with_fuel(is_char_boundary, 2);
            assert(false);
        }
        assert(l == 1);
        reveal_with_fuel(is_char_boundary, 2);
    } else {
        let rest = pop_first_scalar(b);
        assert(rest[k - l - 1] == b[k - 1]);
        lemma_after_ascii(rest, k - l);
        reveal_with_fuel(is_char_boundary, 2);
    }
}

/// Where `cut_ok` holds, `str` may be cut there.
proof fn lemma_cut_ok(b: Seq<u8>, k: int)
    requires
        valid_utf8(b),
        cut_ok(b, k),
    ensures
        is_char_boundary(b, k),
{
    if k == b.len() {
        is_char_boundary_start_end_of_seq(b);
    } else {
        is_char_boundary_iff_not_is_continuation_byte(b, k);
    }
}

/// The text of the bytes `s..e` of `cmd`, both cuts on boundaries.
fn piece(cmd: &str, s: usize, e: usize) -> (r: String)
    requires
        s <= e <= cmd.spec_bytes().len(),
        cut_ok(cmd.spec_bytes(), s as int),
        cut_ok(cmd.spec_bytes(), e as int),
    ensures
        r@ == decode_utf8(cmd.spec_bytes().subrange(s as int, e as int)),
{
    let ghost b = cmd.spec_bytes();
    proof {
        lemma_cut_ok(b, s as int);
    }
    let (_, rest) = cmd.split_at(s);
    let ghost rb = rest.spec_bytes();
    proof {
        assert(rb =~= b.subrange(s as int, b.len() as int));
        if e < b.len() {
            assert(rb[e - s] == b[e as int]);
        }
        lemma_cut_ok(rb, (e - s) as int);
    }
    let (mid, _) = rest.split_at(e - s);
    proof {
        assert(mid.spec_bytes() =~= b.subrange(s as int, e as int));
    }
    mid.to_owned()
}

/// Where `b[k - 1]` is ASCII, `str` may be cut at `k`.
proof fn lemma_after_ascii_cut(b: Seq<u8>, k: int)
    requires
        valid_utf8(b),
        0 < k <= b.len(),
        b[k - 1] < 0x80,
    ensures
        cut_ok(b, k),
{
    lemma_after_ascii(b, k);
    if k < b.len() {
        is_char_boundary_iff_not_is_continuation_byte(b, k);
    }
}

/// The kinds of byte that end a forward scan.
pub enum ByteStop {
    /// A newline.
    Newline,
    /// A byte that is not whitespace.
    NonWhite,
    /// Whitespace or one of `|`, `;`, `&`, `<`, `>`.
    TokenEnd,
}

pub open spec fn byte_stops(k: ByteStop, x: u8) -> bool {
    match k {
        ByteStop::Newline => x == 0x0a,
        ByteStop::NonWhite => !byte_white(x),
        ByteStop::TokenEnd => byte_white(x) || x == 0x7c || x == 0x3b || x == 0x26 || x == 0x3c
            || x == 0x3e,
    }
}

fn byte_stops_exec(k: &ByteStop, x: u8) -> (r: bool)
    ensures
        r == byte_stops(*k, x),
{
    match k {
        ByteStop::Newline => x == 0x0a,
        ByteStop::NonWhite => !char_is_whitespace(x as char),
        ByteStop::TokenEnd => char_is_whitespace(x as char) || x == 0x7c || x == 0x3b || x == 0x26
            || x == 0x3c || x == 0x3e,
    }
}

/// First index `>= i` and below `hi` whose byte stops the scan, or `hi`.
pub open spec fn byte_scan(b: Seq<u8>, k: ByteStop, i: int, hi: int) -> int
    decreases hi - i,
{
    if 0 <= i < hi && !byte_stops(k, b[i]) {
        byte_scan(b, k, i + 1, hi)
    } else {
        i
    }
}

pub proof fn lemma_byte_scan(b: Seq<u8>, k: ByteStop, i: int, hi: int)
    requires
        0 <= i <= hi,
    ensures
        i <= byte_scan(b, k, i, hi) <= hi,
    decreases hi - i,
{
    if i < hi && !byte_stops(k, b[i]) {
        lemma_byte_scan(b, k, i + 1, hi);
    }
}

fn byte_scan_exec(b: &[u8], k: &ByteStop, i: usize, hi: usize) -> (r: usize)
    requires
        i <= hi <= b@.len(),
    ensures
        r == byte_scan(b@, *k, i as int, hi as int),
        i <= r <= hi,
{
    proof {
        lemma_byte_scan(b@, *k, i as int, hi as int);
    }
    let mut m = i;
    while m < hi && !byte_stops_exec(k, b[m])
        invariant
            i <= m <= hi <= b@.len(),
            byte_scan(b@, *k, m as int, hi as int) == byte_scan(b@, *k, i as int, hi as int),
        decreases hi - m,
    {
        m = m + 1;
    }
    m
}

/// From `i`, the first `q` below `hi` (a backslash skips the byte after
/// it), or `hi`.
pub open spec fn quote_end(b: Seq<u8>, q: u8, i: int, hi: int) -> int
    decreases hi - i,
{
    if i < 0 || i >= hi {
        i
    } else if b[i] == q {
        i
    } else if b[i] == 0x5c && i + 1 < hi {
        quote_end(b, q, i + 2, hi)
    } else {
        quote_end(b, q, i + 1, hi)
    }
}

pub proof fn lemma_quote_end(b: Seq<u8>, q: u8, i: int, hi: int)
    requires
        0 <= i <= hi,
    ensures
        i <= quote_end(b, q, i, hi) <= hi,
        quote_end(b, q, i, hi) < hi ==> b[quote_end(b, q, i, hi)] == q,
    decreases hi - i,
{
    if i < hi && b[i] != q {
        if b[i] == 0x5c && i + 1 < hi {
            lemma_quote_end(b, q, i + 2, hi);
        } else {
            lemma_quote_end(b, q, i + 1, hi);
        }
    }
}

fn quote_end_exec(b: &[u8], q: u8, i: usize, hi: usize) -> (r: usize)
    requires
        i <= hi <= b@.len(),
    ensures
        r == quote_end(b@, q, i as int, hi as int),
        i <= r <= hi,
        r < hi ==> b@[r as int] == q,
{
    proof {
        lemma_quote_end(b@, q, i as int, hi as int);
    }
    let mut m = i;
    while m < hi && b[m] != q
        invariant
            i <= m <= hi <= b@.len(),
            quote_end(b@, q, m as int, hi as int) == quote_end(b@, q, i as int, hi as int),
        decreases hi - m,
    {
        if b[m] == 0x5c && m + 1 < hi {
            m = m + 2;
        } else {
            m = m + 1;
        }
    }
    m
}

// ---------------------------------------------------------------------
// Python writes inside a quoted string
// ---------------------------------------------------------------------

/// `open(` starts at byte `k` and ends by `hi`.
pub open spec fn open_at(b: Seq<u8>, k: int, hi: int) -> bool {
    0 <= k && k + 5 <= hi && hi <= b.len() && b[k] == 0x6f && b[k + 1] == 0x70 && b[k + 2] == 0x65
        && b[k + 3] == 0x6e && b[k + 4] == 0x28
}

/// The first quoted string after `p` (whitespace skipped) below `hi`: the
/// bytes between its quote and the matching one (or `hi`).
pub open spec fn quoted_after(b: Seq<u8>, p: int, hi: int) -> Option<(int, int)> {
    let k = byte_scan(b, ByteStop::NonWhite, p, hi);
    if k >= hi || !is_quote(b[k]) {
        None
    } else {
        Some((k + 1, quote_end(b, b[k], k + 1, hi)))
    }
}

/// A write or append mode at `k`: a comma, an optional space, a quote and
/// `w` or `a`, all before `hi`.
pub open spec fn mode_at(b: Seq<u8>, k: int, hi: int) -> bool {
    &&& b[k] == 0x2c
    &&& ((k + 2 < hi && is_quote(b[k + 1]) && (b[k + 2] == 0x77 || b[k + 2] == 0x61)) || (k + 3 < hi
        && b[k + 1] == 0x20 && is_quote(b[k + 2]) && (b[k + 3] == 0x77 || b[k + 3] == 0x61)))
}

/// A write or append mode somewhere in `b[lo..hi]`.
pub open spec fn mode_in(b: Seq<u8>, lo: int, hi: int) -> bool {
    exists|k: int| lo <= k < hi && #[trigger] mode_at(b, k, hi)
}

/// The window of 60 bytes (or fewer, at `hi`) after `p`.
pub open spec fn window_end(p: int, hi: int) -> int {
    if hi < p + 60 {
        hi
    } else {
        p + 60
    }
}

/// The scan of a quoted string `b[..hi]` from `idx` for
/// `open('path.rs', 'w')`-style writes.
pub open spec fn python_from(b: Seq<u8>, idx: int, hi: int) -> Verdict
    decreases hi - idx,
{
    if idx < 0 || idx + 5 > hi {
        Verdict::Clear
    } else if !open_at(b, idx, hi) {
        python_from(b, idx + 1, hi)
    } else {
        let p = idx + 5;
        match quoted_after(b, p, hi) {
            None => Verdict::Clear,
            Some((s, e)) => {
                if p + 60 < hi && cont(b[p + 60]) {
                    Verdict::Fault
                } else if mode_in(b, p, window_end(p, hi)) && kernel_bytes(b, s, e) {
                    Verdict::Target(decode_utf8(b.subrange(s, e)))
                } else {
                    python_from(b, p, hi)
                }
            },
        }
    }
}

fn mode_in_exec(b: &[u8], lo: usize, hi: usize) -> (r: bool)
    requires
        lo <= hi <= b@.len(),
    ensures
        r == mode_in(b@, lo as int, hi as int),
{
    let mut k = lo;
    while k < hi
        invariant
            lo <= k <= hi <= b@.len(),
            forall|m: int| lo <= m < k ==> !mode_at(b@, m, hi as int),
        decreases hi - k,
    {
        if b[k] == 0x2c {
            if hi - k > 2 && (b[k + 1] == 0x27 || b[k + 1] == 0x22) && (b[k + 2] == 0x77 || b[k + 2]
                == 0x61) {
                assert(mode_at(b@, k as int, hi as int));
                return true;
            }
            if hi - k > 3 && b[k + 1] == 0x20 && (b[k + 2] == 0x27 || b[k + 2] == 0x22) && (b[k + 3]
                == 0x77 || b[k + 3] == 0x61) {
                assert(mode_at(b@, k as int, hi as int));
                return true;
            }
        }
        k = k + 1;
    }
    false
}

fn kernel_bytes_exec(b: &[u8], s: usize, e: usize) -> (r: bool)
    requires
        s <= e <= b@.len(),
    ensures
        r == kernel_bytes(b@, s as int, e as int),
{
    if e - s < 3 {
        return false;
    }
    let k = e - 3;
    b[k] == 0x2e && ((b[k + 1] == 0x72 && (b[k + 2] == 0x62 || b[k + 2] == 0x73)) || (b[k + 1]
        == 0x73 && b[k + 2] == 0x68) || (b[k + 1] == 0x70 && b[k + 2] == 0x79))
}

/// Scans the quoted string `b[lo..hi]` for a python write.
fn scan_python_write_in(cmd: &str, b: &[u8], lo: usize, hi: usize) -> (r: Result<Option<String>, ()>)
    requires
        b@ == cmd.spec_bytes(),
        0 < lo <= hi <= b@.len(),
        b@[lo - 1] < 0x80,
        cut_ok(b@, hi as int),
    ensures
        scan_says(r, python_from(b@, lo as int, hi as int)),
{
    let mut idx = lo;
    while hi - idx >= 5
        invariant
            lo <= idx <= hi <= b@.len(),
            b@ == cmd.spec_bytes(),
            cut_ok(b@, hi as int),
            python_from(b@, idx as int, hi as int) == python_from(b@, lo as int, hi as int),
        decreases hi - idx,
    {
        if !(b[idx] == 0x6f && b[idx + 1] == 0x70 && b[idx + 2] == 0x65 && b[idx + 3] == 0x6e
            && b[idx + 4] == 0x28) {
            idx = idx + 1;
        } else {
            let p = idx + 5;
            let k = byte_scan_exec(b, &ByteStop::NonWhite, p, hi);
            if k >= hi || !(b[k] == 0x27 || b[k] == 0x22) {
                return Ok(None);
            }
            let e = quote_end_exec(b, b[k], k + 1, hi);
            if hi - p > 60 && 0x80 <= b[p + 60] && b[p + 60] <= 0xbf {
                return Err(());
            }
            let w = if hi - p < 60 { hi } else { p + 60 };
            if mode_in_exec(b, p, w) && kernel_bytes_exec(b, k + 1, e) {
                proof {
                    lemma_after_ascii_cut(b@, (k + 1) as int);
                }
                return Ok(Some(piece(cmd, k + 1, e)));
            }
            idx = p;
        }
    }
    Ok(None)
}

// ---------------------------------------------------------------------
// Redirects, and the quoted strings and comments around them
// ---------------------------------------------------------------------

/// Where the `>` or `>>` at `i` has its operand: after the operator and
/// any whitespace.
pub open spec fn operand_start(b: Seq<u8>, i: int) -> int {
    let j = if i + 1 < b.len() && b[i + 1] == 0x3e {
        i + 2
    } else {
        i + 1
    };
    byte_scan(b, ByteStop::NonWhite, j, b.len() as int)
}

/// The byte-by-byte scan from `i` for a redirect to a kernel-surface file
/// or a python write inside a quoted string; comments are skipped.
pub open spec fn outer(b: Seq<u8>, i: int) -> Verdict
    decreases b.len() - i,
{
    if i < 0 || i >= b.len() {
        Verdict::Clear
    } else if is_quote(b[i]) {
        let e = quote_end(b, b[i], i + 1, b.len() as int);
        if python_from(b, i + 1, e) is Clear {
            proof {
                lemma_quote_end(b, b[i], i + 1, b.len() as int);
            }
            if e < b.len() {
                outer(b, e + 1)
            } else {
                Verdict::Clear
            }
        } else {
            python_from(b, i + 1, e)
        }
    } else if b[i] == 0x23 {
        proof {
            lemma_byte_scan(b, ByteStop::Newline, i + 1, b.len() as int);
        }
        outer(b, byte_scan(b, ByteStop::Newline, i + 1, b.len() as int))
    } else if b[i] == 0x3e {
        let st = operand_start(b, i);
        proof {
            if i + 1 < b.len() {
                lemma_byte_scan(b, ByteStop::NonWhite, i + 2, b.len() as int);
            }
            lemma_byte_scan(b, ByteStop::NonWhite, i + 1, b.len() as int);
            lemma_byte_scan(b, ByteStop::TokenEnd, st, b.len() as int);
        }
        let j = byte_scan(b, ByteStop::TokenEnd, st, b.len() as int);
        if !cut_ok(b, st) || !cut_ok(b, j) {
            Verdict::Fault
        } else {
            let t = strip_both(decode_utf8(b.subrange(st, j)), Stop::NonQuote);
            if kernel_text(t) {
                Verdict::Target(t)
            } else {
                outer(b, j)
            }
        }
    } else {
        outer(b, i + 1)
    }
}

fn kernel_text_exec(t: &Vec<char>) -> (r: bool)
    ensures
        r == kernel_text(t@),
{
    let n = t.len();
    if n < 3 {
        return false;
    }
    t[n - 3] == '.' && ((t[n - 2] == 'r' && (t[n - 1] == 'b' || t[n - 1] == 's')) || (t[n - 2]
        == 's' && t[n - 1] == 'h') || (t[n - 2] == 'p' && t[n - 1] == 'y'))
}

/// Runs the redirect and quoted-string scan over the whole command.
fn outer_scan(cmd: &str, b: &[u8]) -> (r: Result<Option<String>, ()>)
    requires
        b@ == cmd.spec_bytes(),
    ensures
        scan_says(r, outer(b@, 0)),
{
    let n = b.len();
    let mut i: usize = 0;
    while i < n
        invariant
            i <= n == b@.len(),
            b@ == cmd.spec_bytes(),
            outer(b@, i as int) == outer(b@, 0),
        decreases n - i,
    {
        let c = b[i];
        if c == 0x27 || c == 0x22 {
            let e = quote_end_exec(b, c, i + 1, n);
            proof {
                lemma_after_ascii_cut(b@, (i + 1) as int);
            }
            let found = scan_python_write_in(cmd, b, i + 1, e);
            match found {
                Ok(None) => {},
                _ => {
                    return found;
                },
            }
            i = if e < n { e + 1 } else { n };
        } else if c == 0x23 {
            let k = byte_scan_exec(b, &ByteStop::Newline, i + 1, n);
            assert(outer(b@, i as int) == outer(b@, k as int));
            i = k;
        } else if c == 0x3e {
            let j0 = if i + 1 < n && b[i + 1] == 0x3e { i + 2 } else { i + 1 };
            let st = byte_scan_exec(b, &ByteStop::NonWhite, j0, n);
            let j = byte_scan_exec(b, &ByteStop::TokenEnd, st, n);
            assert(st as int == operand_start(b@, i as int));
            let st_cut = st == n || !(0x80 <= b[st] && b[st] <= 0xbf);
            let j_cut = j == n || !(0x80 <= b[j] && b[j] <= 0xbf);
            if !st_cut || !j_cut {
                return Err(());
            }
            let target = piece(cmd, st, j);
            let t = strip_both_exec(&chars_of(target.as_str()), &Stop::NonQuote);
            if kernel_text_exec(&t) {
                return Ok(Some(crate::text::string_of(&t)));
            }
            assert(outer(b@, i as int) == outer(b@, j as int));
            i = j;
        } else {
            i = i + 1;
        }
    }
    Ok(None)
}

// ---------------------------------------------------------------------
// `tee`, `sed -i`, `awk -i inplace` followed by a path
// ---------------------------------------------------------------------

/// Where the search for a command name outside quotes ends.
pub enum Seek {
    At(int),
    Absent,
    /// The search cuts the command inside a character.
    Fault,
}

/// `"tee "`, `"sed "` or `"awk "` for the scans 0, 1 and 2.
pub open spec fn needle(w: int) -> Seq<u8> {
    if w == 0 {
        seq![0x74u8, 0x65u8, 0x65u8, 0x20u8]
    } else if w == 1 {
        seq![0x73u8, 0x65u8, 0x64u8, 0x20u8]
    } else {
        seq![0x61u8, 0x77u8, 0x6bu8, 0x20u8]
    }
}

/// The first occurrence of `nd` from `i` that is not inside a quoted
/// region (`q` is the open quote, if any; a backslash inside quotes skips
/// the byte after it).
pub open spec fn seek(b: Seq<u8>, nd: Seq<u8>, i: int, q: Option<u8>) -> Seek
    decreases b.len() - i,
{
    if i < 0 || i >= b.len() {
        Seek::Absent
    } else {
        match q {
            Some(qq) => {
                if b[i] == 0x5c && i + 1 < b.len() {
                    seek(b, nd, i + 2, q)
                } else if b[i] == qq {
                    seek(b, nd, i + 1, None)
                } else {
                    seek(b, nd, i + 1, q)
                }
            },
            None => {
                if is_quote(b[i]) {
                    seek(b, nd, i + 1, Some(b[i]))
                } else if cont(b[i]) {
                    Seek::Fault
                } else if i + nd.len() <= b.len() && b.subrange(i, i + nd.len()) == nd {
                    Seek::At(i)
                } else {
                    seek(b, nd, i + 1, None)
                }
            },
        }
    }
}

pub proof fn lemma_seek(b: Seq<u8>, nd: Seq<u8>, i: int, q: Option<u8>)
    ensures
        seek(b, nd, i, q) matches Seek::At(p) ==> 0 <= p && p + nd.len() <= b.len() && b.subrange(
            p,
            p + nd.len(),
        ) == nd,
    decreases b.len() - i,
{
    if 0 <= i < b.len() {
        match q {
            Some(qq) => {
                if b[i] == 0x5c && i + 1 < b.len() {
                    lemma_seek(b, nd, i + 2, q);
                } else if b[i] == qq {
                    lemma_seek(b, nd, i + 1, None);
                } else {
                    lemma_seek(b, nd, i + 1, q);
                }
            },
            None => {
                if is_quote(b[i]) {
                    lemma_seek(b, nd, i + 1, Some(b[i]));
                } else {
                    lemma_seek(b, nd, i + 1, None);
                }
            },
        }
    }
}

/// A token that ends the command's arguments: `|`, `;`, `&&` or `||`.
pub open spec fn stop_token(t: Seq<char>) -> bool {
    t == seq!['|'] || t == seq![';'] || t == seq!['&', '&'] || t == seq!['|', '|']
}

/// The index of the first stop token at or after `i`, or the length.
pub open spec fn first_stop(ws: Seq<Seq<char>>, i: int) -> int
    decreases ws.len() - i,
{
    if 0 <= i < ws.len() && !stop_token(ws[i]) {
        first_stop(ws, i + 1)
    } else {
        i
    }
}

/// The arguments: the words before the first stop token.
pub open spec fn arguments(after: Seq<char>) -> Seq<Seq<char>> {
    let ws = words(after);
    ws.take(first_stop(ws, 0))
}

/// Whether the arguments mark the command as a write: `tee` always;
/// `sed` with `-i` or `--in-place`; `awk` with `-i` directly followed by
/// `inplace`.
pub open spec fn writes(w: int, ts: Seq<Seq<char>>) -> bool {
    if w == 0 {
        true
    } else if w == 1 {
        exists|k: int| 0 <= k < ts.len() && (#[trigger] ts[k] == seq!['-', 'i'] || ts[k] == seq![
            '-', '-', 'i', 'n', '-', 'p', 'l', 'a', 'c', 'e'])
    } else {
        exists|k: int|
            0 <= k && k + 1 < ts.len() && #[trigger] ts[k] == seq!['-', 'i'] && ts[k + 1] == seq![
                'i', 'n', 'p', 'l', 'a', 'c', 'e']
    }
}

/// The first argument from `i` that is not a flag and, with its quotes
/// trimmed, names a kernel-surface file.
pub open spec fn first_path(ts: Seq<Seq<char>>, i: int) -> Option<Seq<char>>
    decreases ts.len() - i,
{
    if i < 0 || i >= ts.len() {
        None
    } else if ts[i].len() > 0 && ts[i][0] == '-' {
        first_path(ts, i + 1)
    } else if kernel_text(strip_both(ts[i], Stop::NonQuote)) {
        Some(strip_both(ts[i], Stop::NonQuote))
    } else {
        first_path(ts, i + 1)
    }
}

/// The scan for `tee` (0), `sed` (1) or `awk` (2) followed by a path.
pub open spec fn command_scan(b: Seq<u8>, w: int) -> Verdict {
    match seek(b, needle(w), 0, None) {
        Seek::Absent => Verdict::Clear,
        Seek::Fault => Verdict::Fault,
        Seek::At(p) => {
            let ts = arguments(decode_utf8(b.subrange(p + 4, b.len() as int)));
            if !writes(w, ts) {
                Verdict::Clear
            } else {
                match first_path(ts, 0) {
                    Some(t) => Verdict::Target(t),
                    None => Verdict::Clear,
                }
            }
        },
    }
}

/// What the hook concludes of a command's UTF-8 bytes: nothing unless a
/// kernel-surface extension is mentioned; then the redirect and quoted
/// string scan, and after it the `tee`, `sed` and `awk` scans in turn.
pub open spec fn bash_verdict(b: Seq<u8>) -> Verdict {
    if !mentions_kernel(b) {
        Verdict::Clear
    } else if !(outer(b, 0) is Clear) {
        outer(b, 0)
    } else if !(command_scan(b, 0) is Clear) {
        command_scan(b, 0)
    } else if !(command_scan(b, 1) is Clear) {
        command_scan(b, 1)
    } else {
        command_scan(b, 2)
    }
}

fn needle_exec(w: u8) -> (r: Vec<u8>)
    ensures
        r@ == needle(w as int),
{
    if w == 0 {
        vec![0x74u8, 0x65u8, 0x65u8, 0x20u8]
    } else if w == 1 {
        vec![0x73u8, 0x65u8, 0x64u8, 0x20u8]
    } else {
        vec![0x61u8, 0x77u8, 0x6bu8, 0x20u8]
    }
}

/// Whether `nd` occurs at byte `i`.
fn bytes_at(b: &[u8], nd: &Vec<u8>, i: usize) -> (r: bool)
    requires
        i <= b@.len(),
    ensures
        r == (i + nd@.len() <= b@.len() && b@.subrange(i as int, i + nd@.len()) == nd@),
{
    let n = b.len();
    if n - i < nd.len() {
        return false;
    }
    let mut k: usize = 0;
    while k < nd.len()
        invariant
            n == b@.len(),
            k <= nd@.len(),
            i <= b@.len(),
            i + nd@.len() <= b@.len(),
            forall|m: int| 0 <= m < k ==> b@[i + m] == nd@[m],
        decreases nd.len() - k,
    {
        if b[i + k] != nd[k] {
            assert(b@.subrange(i as int, i + nd@.len())[k as int] != nd@[k as int]);
            return false;
        }
        k = k + 1;
    }
    assert(b@.subrange(i as int, i + nd@.len()) =~= nd@);
    true
}

/// The search for `nd` outside quotes: `Ok(None)` where it is absent,
/// `Err(())` where it would cut a character.
fn find_outside_quotes(b: &[u8], nd: &Vec<u8>) -> (r: Result<Option<usize>, ()>)
    ensures
        match r {
            Ok(Some(p)) => seek(b@, nd@, 0, None) == Seek::At(p as int),
            Ok(None) => seek(b@, nd@, 0, None) == Seek::Absent,
            Err(_) => seek(b@, nd@, 0, None) == Seek::Fault,
        },
{
    let n = b.len();
    let mut i: usize = 0;
    let mut q: Option<u8> = None;
    while i < n
        invariant
            i <= n == b@.len(),
            seek(b@, nd@, i as int, q) == seek(b@, nd@, 0, None),
        decreases n - i,
    {
        let c = b[i];
        match q {
            Some(qq) => {
                if c == 0x5c && i + 1 < n {
                    i = i + 2;
                } else {
                    if c == qq {
                        q = None;
                    }
                    i = i + 1;
                }
            },
            None => {
                if c == 0x27 || c == 0x22 {
                    q = Some(c);
                    i = i + 1;
                } else if 0x80 <= c && c <= 0xbf {
                    return Err(());
                } else if bytes_at(b, nd, i) {
                    return Ok(Some(i));
                } else {
                    i = i + 1;
                }
            },
        }
    }
    Ok(None)
}

fn first_stop_exec(ws: &Vec<Vec<char>>) -> (r: usize)
    ensures
        r == first_stop(views(ws@), 0),
        r <= ws.len(),
{
    let mut i: usize = 0;
    while i < ws.len()
        invariant
            i <= ws.len(),
            first_stop(views(ws@), i as int) == first_stop(views(ws@), 0),
        decreases ws.len() - i,
    {
        let t = &ws[i];
        let stop = (t.len() == 1 && (t[0] == '|' || t[0] == ';')) || (t.len() == 2 && ((t[0] == '&'
            && t[1] == '&') || (t[0] == '|' && t[1] == '|')));
        assert(views(ws@)[i as int] == t@);
        if stop {
            proof {
                if t@.len() == 1 {
                    if t@[0] == '|' {
                        assert(t@ =~= seq!['|']);
                    } else {
                        assert(t@ =~= seq![';']);
                    }
                } else if t@[0] == '&' {
                    assert(t@ =~= seq!['&', '&']);
                } else {
                    assert(t@ =~= seq!['|', '|']);
                }
            }
            return i;
        }
        assert(!stop_token(t@)) by {
            if t@ == seq!['|'] || t@ == seq![';'] {
                assert(t@.len() == 1);
            }
            if t@ == seq!['&', '&'] || t@ == seq!['|', '|'] {
                assert(t@.len() == 2);
            }
        }
        i = i + 1;
    }
    i
}

/// Whether the first `m` words mark the command as a write.
fn writes_exec(w: u8, ws: &Vec<Vec<char>>, m: usize) -> (r: bool)
    requires
        m <= ws.len(),
    ensures
        r == writes(w as int, views(ws@).take(m as int)),
{
    if w == 0 {
        return true;
    }
    let ghost ts = views(ws@).take(m as int);
    proof {
        reveal_strlit("-i");
        reveal_strlit("--in-place");
        reveal_strlit("inplace");
        assert("-i"@ =~= seq!['-', 'i']);
        assert("--in-place"@ =~= seq!['-', '-', 'i', 'n', '-', 'p', 'l', 'a', 'c', 'e']);
        assert("inplace"@ =~= seq!['i', 'n', 'p', 'l', 'a', 'c', 'e']);
    }
    let mut k: usize = 0;
    while k < m
        invariant
            k <= m <= ws.len(),
            ts == views(ws@).take(m as int),
            "-i"@ == seq!['-', 'i'],
            "--in-place"@ == seq!['-', '-', 'i', 'n', '-', 'p', 'l', 'a', 'c', 'e'],
            "inplace"@ == seq!['i', 'n', 'p', 'l', 'a', 'c', 'e'],
            w == 1 ==> forall|j: int|
                0 <= j < k ==> !(ts[j] == seq!['-', 'i'] || ts[j] == seq![
                    '-', '-', 'i', 'n', '-', 'p', 'l', 'a', 'c', 'e',
                ]),
            w != 1 ==> forall|j: int|
                0 <= j < k && j + 1 < ts.len() ==> !(#[trigger] ts[j] == seq!['-', 'i'] && ts[j + 1] == seq![
                    'i', 'n', 'p', 'l', 'a', 'c', 'e',
                ]),
        decreases m - k,
    {
        assert(ts[k as int] == ws@[k as int]@);
        if w == 1 {
            if crate::text::eq_str(&ws[k], "-i") || crate::text::eq_str(&ws[k], "--in-place") {
                return true;
            }
        } else if k + 1 < m {
            assert(ts[k + 1] == ws@[k + 1]@);
            if crate::text::eq_str(&ws[k], "-i") && crate::text::eq_str(&ws[k + 1], "inplace") {
                return true;
            }
        }
        k = k + 1;
    }
    false
}

/// The first path among the first `m` words.
fn first_path_exec(ws: &Vec<Vec<char>>, m: usize) -> (r: Option<Vec<char>>)
    requires
        m <= ws.len(),
    ensures
        match r {
            Some(t) => first_path(views(ws@).take(m as int), 0) == Some(t@),
            None => first_path(views(ws@).take(m as int), 0) is None,
        },
{
    let ghost ts = views(ws@).take(m as int);
    let mut k: usize = 0;
    while k < m
        invariant
            k <= m <= ws.len(),
            ts == views(ws@).take(m as int),
            first_path(ts, k as int) == first_path(ts, 0),
        decreases m - k,
    {
        let t = &ws[k];
        assert(ts[k as int] == t@);
        if !(t.len() > 0 && t[0] == '-') {
            let p = strip_both_exec(t, &Stop::NonQuote);
            if kernel_text_exec(&p) {
                return Some(p);
            }
        }
        k = k + 1;
    }
    None
}

/// The `tee` (0), `sed` (1) or `awk` (2) scan.
fn scan_command_with_path_arg(cmd: &str, b: &[u8], w: u8) -> (r: Result<Option<String>, ()>)
    requires
        b@ == cmd.spec_bytes(),
        w <= 2,
    ensures
        scan_says(r, command_scan(b@, w as int)),
{
    let nd = needle_exec(w);
    let n = b.len();
    match find_outside_quotes(b, &nd) {
        Err(_) => Err(()),
        Ok(None) => Ok(None),
        Ok(Some(p)) => {
            proof {
                lemma_seek(b@, nd@, 0, None);
                assert(b@.subrange(p as int, p + 4)[3] == nd@[3]);
            }
            proof {
                lemma_after_ascii_cut(b@, p + 4);
            }
            let after = piece(cmd, p + 4, n);
            let ws = words_exec(&chars_of(after.as_str()));
            let m = first_stop_exec(&ws);
            proof {
                assert(views(ws@).take(m as int) == arguments(after@));
            }
            if !writes_exec(w, &ws, m) {
                return Ok(None);
            }
            match first_path_exec(&ws, m) {
                Some(t) => Ok(Some(crate::text::string_of(&t))),
                None => Ok(None),
            }
        },
    }
}

/// Whether the bytes mention a kernel-surface extension.
fn mentions_kernel_exec(b: &[u8]) -> (r: bool)
    ensures
        r == mentions_kernel(b@),
{
    let n = b.len();
    let mut k: usize = 0;
    while k < n
        invariant
            k <= n == b@.len(),
            forall|m: int| 0 <= m < k ==> !ext_at(b@, m),
        decreases n - k,
    {
        if n - k >= 3 && b[k] == 0x2e && ((b[k + 1] == 0x72 && (b[k + 2] == 0x62 || b[k + 2] == 0x73))
            || (b[k + 1] == 0x73 && b[k + 2] == 0x68) || (b[k + 1] == 0x70 && b[k + 2] == 0x79)) {
            assert(ext_at(b@, k as int));
            return true;
        }
        k = k + 1;
    }
    false
}

/// The kernel-surface file a Bash command writes, if any: a `>` or `>>`
/// redirect to it, a python `open(path, 'w' | 'a')` inside a quoted
/// string, or `tee`, `sed -i` / `sed --in-place` or `awk -i inplace`
/// followed by it outside quotes.
pub fn detect_bash_write_target(cmd: &str) -> (r: Option<String>)
    requires
        !(bash_verdict(cmd.spec_bytes()) is Fault),
    ensures
        match r {
            Some(t) => bash_verdict(cmd.spec_bytes()) == Verdict::Target(t@),
            None => bash_verdict(cmd.spec_bytes()) == Verdict::Clear,
        },
{
    match checked_bash_write_target(cmd) {
        Some(found) => found,
        None => None,
    }
}

/// The same scan for every command: `None` where the hook would cut the
/// command inside a character and panic, else `Some` of what
/// `detect_bash_write_target` gives.
pub fn checked_bash_write_target(cmd: &str) -> (r: Option<Option<String>>)
    ensures
        match r {
            None => bash_verdict(cmd.spec_bytes()) is Fault,
            Some(Some(t)) => bash_verdict(cmd.spec_bytes()) == Verdict::Target(t@),
            Some(None) => bash_verdict(cmd.spec_bytes()) == Verdict::Clear,
        },
{
    let b = cmd.as_bytes();
    if !mentions_kernel_exec(b) {
        return Some(None);
    }
    match outer_scan(cmd, b) {
        Err(_) => {
            return None;
        },
        Ok(Some(t)) => {
            return Some(Some(t));
        },
        Ok(None) => {},
    }
    let mut w: u8 = 0;
    while w < 3
        invariant
            w <= 3,
            b@ == cmd.spec_bytes(),
            mentions_kernel(b@),
            outer(b@, 0) is Clear,
            forall|v: int| 0 <= v < w ==> #[trigger] command_scan(b@, v) is Clear,
        decreases 3 - w,
    {
        match scan_command_with_path_arg(cmd, b, w) {
            Err(_) => {
                return None;
            },
            Ok(Some(t)) => {
                return Some(Some(t));
            },
            Ok(None) => {},
        }
        w = w + 1;
    }
    Some(None)
}

// ---------------------------------------------------------------------
// The hook's payload
// ---------------------------------------------------------------------

/// The text under `tool_input.<key>` of a hook payload, or empty.
pub open spec fn input_text(v: Json, key: Seq<char>) -> Seq<char> {
    match field(v, "tool_input"@) {
        Some(inner) => match str_field(inner, key) {
            Some(t) => t,
            None => Seq::empty(),
        },
        None => Seq::empty(),
    }
}

/// The file an edit hook's payload is about: `tool_input.file_path` when
/// it is not empty; else, for the `Bash` tool, the kernel-surface file its
/// `tool_input.command` writes (`None` where that scan panics); else no
/// file.
pub open spec fn hook_path(v: Json) -> Option<Option<Seq<char>>> {
    let path = input_text(v, "file_path"@);
    if path.len() > 0 {
        Some(Some(path))
    } else if str_field(v, "tool_name"@) == Some("Bash"@) {
        match bash_verdict(encode_utf8(input_text(v, "command"@))) {
            Verdict::Target(t) => Some(Some(t)),
            Verdict::Clear => Some(None),
            Verdict::Fault => None,
        }
    } else {
        Some(None)
    }
}

/// The characters of a possible path.
pub open spec fn paths_view(r: Option<Option<String>>) -> Option<Option<Seq<char>>> {
    match r {
        Some(Some(t)) => Some(Some(t@)),
        Some(None) => Some(None),
        None => None,
    }
}

fn input_text_exec(v: &Json, key: &str) -> (r: String)
    ensures
        r@ == input_text(*v, key@),
{
    proof {
        reveal_strlit("tool_input");
    }
    match field_exec(v, "tool_input") {
        Some(inner) => match str_field_exec(inner, key) {
            Some(t) => crate::text::string_of(&t),
            None => String::new(),
        },
        None => String::new(),
    }
}

/// The file a parsed hook payload is about; `None` where the `Bash`
/// command's scan would panic.
pub fn payload_file_path(v: &Json) -> (r: Option<Option<String>>)
    ensures
        paths_view(r) == hook_path(*v),
{
    let path = input_text_exec(v, "file_path");
    if !path.as_str().is_empty() {
        return Some(Some(path));
    }
    let tool = str_field_exec(v, "tool_name");
    let is_bash = match &tool {
        Some(t) => crate::text::eq_str(t, "Bash"),
        None => false,
    };
    if !is_bash {
        return Some(None);
    }
    let command = input_text_exec(v, "command");
    checked_bash_write_target(command.as_str())
}

/// The file an edit hook's JSON payload is about: no file when the text
/// is not JSON, else what `payload_file_path` gives.
pub fn hook_file_path(payload: &str) -> (r: Option<Option<String>>)
    ensures
        match parsed_json(payload@) {
            Some(v) => paths_view(r) == hook_path(v),
            None => r == Some(None::<String>),
        },
{
    match parse_json(payload) {
        Some(v) => payload_file_path(&v),
        None => Some(None),
    }
}

// ---------------------------------------------------------------------
// What the detector promises
// ---------------------------------------------------------------------

/// Three ASCII bytes decode to the three characters of the same codes.
proof fn lemma_decode_ascii3(y: Seq<u8>)
    requires
        y.len() == 3,
        y[0] < 0x80,
        y[1] < 0x80,
        y[2] < 0x80,
    ensures
        valid_utf8(y),
        decode_utf8(y) == seq![y[0] as char, y[1] as char, y[2] as char],
{
    let a = y[0];
    let b1 = y[1];
    let c = y[2];
    assert(a & 0x7f == a) by (bit_vector)
        requires
            a < 0x80,
    ;
    assert(b1 & 0x7f == b1) by (bit_vector)
        requires
            b1 < 0x80,
    ;
    assert(c & 0x7f == c) by (bit_vector)
        requires
            c < 0x80,
    ;
    let y1 = y.subrange(1, 3);
    let y2 = y.subrange(2, 3);
    let y3 = y.subrange(3, 3);
    assert(pop_first_scalar(y) =~= y1);
    assert(pop_first_scalar(y1) =~= y2);
    assert(pop_first_scalar(y2) =~= y3);
    assert(y3.len() == 0);
    reveal_with_fuel(valid_utf8, 4);
    reveal_with_fuel(decode_utf8, 4);
    assert(decode_utf8(y) =~= seq![a as char, b1 as char, c as char]);
}

/// Bytes that end in `.rb`, `.rs`, `.sh` or `.py` decode to a text that
/// ends in it.
proof fn lemma_kernel_decode(x: Seq<u8>)
    requires
        valid_utf8(x),
        kernel_bytes(x, 0, x.len() as int),
    ensures
        kernel_text(decode_utf8(x)),
{
    let m = x.len() - 3;
    is_char_boundary_iff_not_is_continuation_byte(x, m);
    decode_utf8_split(x, m);
    valid_utf8_split(x, m);
    let y = x.subrange(m, x.len() as int);
    assert(y[0] == x[m] && y[1] == x[m + 1] && y[2] == x[m + 2]);
    lemma_decode_ascii3(y);
    let d = decode_utf8(x);
    let n = d.len() as int;
    assert(d =~= decode_utf8(x.subrange(0, m)) + seq![y[0] as char, y[1] as char, y[2] as char]);
    assert(d[n - 3] == y[0] as char && d[n - 2] == y[1] as char && d[n - 1] == y[2] as char);
}

/// The bytes `s..e` of a valid text between two cuts are valid.
proof fn lemma_piece_valid(b: Seq<u8>, s: int, e: int)
    requires
        valid_utf8(b),
        0 <= s <= e <= b.len(),
        cut_ok(b, s),
        cut_ok(b, e),
    ensures
        valid_utf8(b.subrange(s, e)),
{
    lemma_cut_ok(b, s);
    valid_utf8_split(b, s);
    let r = b.subrange(s, b.len() as int);
    if e < b.len() {
        assert(r[e - s] == b[e]);
    }
    lemma_cut_ok(r, e - s);
    valid_utf8_split(r, e - s);
    assert(r.subrange(0, e - s) =~= b.subrange(s, e));
}

proof fn lemma_python_target(b: Seq<u8>, idx: int, hi: int)
    requires
        valid_utf8(b),
        0 <= idx <= hi <= b.len(),
        cut_ok(b, hi),
    ensures
        python_from(b, idx, hi) matches Verdict::Target(t) ==> kernel_text(t),
    decreases hi - idx,
{
    if idx + 5 <= hi {
        if !open_at(b, idx, hi) {
            lemma_python_target(b, idx + 1, hi);
        } else {
            let p = idx + 5;
            lemma_byte_scan(b, ByteStop::NonWhite, p, hi);
            let k = byte_scan(b, ByteStop::NonWhite, p, hi);
            if k < hi && is_quote(b[k]) {
                let s = k + 1;
                lemma_quote_end(b, b[k], s, hi);
                let e = quote_end(b, b[k], s, hi);
                if kernel_bytes(b, s, e) {
                    lemma_after_ascii_cut(b, s);
                    lemma_piece_valid(b, s, e);
                    let x = b.subrange(s, e);
                    assert(ext_at(x, x.len() - 3)) by {
                        assert(x[x.len() - 3] == b[e - 3]);
                        assert(x[x.len() - 2] == b[e - 2]);
                        assert(x[x.len() - 1] == b[e - 1]);
                    }
                    lemma_kernel_decode(x);
                }
                lemma_python_target(b, p, hi);
            }
        }
    }
}

proof fn lemma_outer_target(b: Seq<u8>, i: int)
    requires
        valid_utf8(b),
        0 <= i,
    ensures
        outer(b, i) matches Verdict::Target(t) ==> kernel_text(t),
    decreases b.len() - i,
{
    if i < b.len() {
        if is_quote(b[i]) {
            lemma_quote_end(b, b[i], i + 1, b.len() as int);
            let e = quote_end(b, b[i], i + 1, b.len() as int);
            lemma_python_target(b, i + 1, e);
            if e < b.len() {
                lemma_outer_target(b, e + 1);
            }
        } else if b[i] == 0x23 {
            lemma_byte_scan(b, ByteStop::Newline, i + 1, b.len() as int);
            lemma_outer_target(b, byte_scan(b, ByteStop::Newline, i + 1, b.len() as int));
        } else if b[i] == 0x3e {
            if i + 1 < b.len() {
                lemma_byte_scan(b, ByteStop::NonWhite, i + 2, b.len() as int);
            }
            lemma_byte_scan(b, ByteStop::NonWhite, i + 1, b.len() as int);
            let st = operand_start(b, i);
            lemma_byte_scan(b, ByteStop::TokenEnd, st, b.len() as int);
            lemma_outer_target(b, byte_scan(b, ByteStop::TokenEnd, st, b.len() as int));
        } else {
            lemma_outer_target(b, i + 1);
        }
    }
}

proof fn lemma_first_path(ts: Seq<Seq<char>>, i: int)
    ensures
        first_path(ts, i) matches Some(p) ==> kernel_text(p),
    decreases ts.len() - i,
{
    if 0 <= i < ts.len() {
        lemma_first_path(ts, i + 1);
    }
}

proof fn lemma_command_target(b: Seq<u8>, w: int)
    ensures
        command_scan(b, w) matches Verdict::Target(t) ==> kernel_text(t),
{
    match seek(b, needle(w), 0, None) {
        Seek::At(p) => {
            lemma_first_path(arguments(decode_utf8(b.subrange(p + 4, b.len() as int))), 0);
        },
        _ => {},
    }
}

/// Whatever the detector names is a kernel-surface file: a path that ends
/// in `.rb`, `.rs`, `.sh` or `.py`.
pub proof fn law_target_is_kernel_surface(cmd: &str)
    ensures
        bash_verdict(cmd.spec_bytes()) matches Verdict::Target(t) ==> kernel_text(t),
{
    let b = cmd.spec_bytes();
    lemma_outer_target(b, 0);
    lemma_command_target(b, 0);
    lemma_command_target(b, 1);
    lemma_command_target(b, 2);
}

/// A command that mentions no kernel-surface extension writes none.
pub proof fn law_no_extension_is_clear(cmd: &str)
    ensures
        !mentions_kernel(cmd.spec_bytes()) ==> bash_verdict(cmd.spec_bytes()) is Clear,
{
}

} // verus!

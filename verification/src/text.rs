//! Character-level text toolkit: the specification of every string
//! operation the parsers use, over `Seq<char>`, and executable versions
//! over `Vec<char>` proved equal to it.

use vstd::prelude::*;

verus! {

// ---------------------------------------------------------------------
// Unicode character classes (std's `char` methods)
// ---------------------------------------------------------------------

/// `char::is_whitespace`: the Unicode `White_Space` property, whose code
/// points are U+0009 to U+000D, U+0020, U+0085, U+00A0, U+1680, U+2000 to
/// U+200A, U+2028, U+2029, U+202F, U+205F and U+3000.
pub open spec fn is_white(c: char) -> bool {
    let u = c as u32;
    (0x09 <= u && u <= 0x0d) || u == 0x20 || u == 0x85 || u == 0xa0 || u == 0x1680 || (0x2000 <= u
        && u <= 0x200a) || u == 0x2028 || u == 0x2029 || u == 0x202f || u == 0x205f || u == 0x3000
}

/// `char::is_alphanumeric` beyond ASCII: Unicode `Alphabetic` or `Numeric`.
pub uninterp spec fn alnum_beyond_ascii(c: char) -> bool;

/// `char::is_uppercase` beyond ASCII: the Unicode `Uppercase` property.
pub uninterp spec fn upper_beyond_ascii(c: char) -> bool;

/// `char::is_lowercase` beyond ASCII: the Unicode `Lowercase` property.
pub uninterp spec fn lower_beyond_ascii(c: char) -> bool;

/// The first character of `char::to_lowercase`'s mapping of a character
/// beyond ASCII (the char itself when the mapping is empty).
pub uninterp spec fn lower_head_beyond_ascii(c: char) -> char;

/// `char::is_alphanumeric`: on ASCII the letters and digits.
pub open spec fn is_alnum(c: char) -> bool {
    if (c as u32) < 0x80 {
        ('a' <= c && c <= 'z') || ('A' <= c && c <= 'Z') || ('0' <= c && c <= '9')
    } else {
        alnum_beyond_ascii(c)
    }
}

/// `char::is_uppercase`: on ASCII the letters `A` to `Z`.
pub open spec fn is_upper(c: char) -> bool {
    if (c as u32) < 0x80 {
        'A' <= c && c <= 'Z'
    } else {
        upper_beyond_ascii(c)
    }
}

/// `char::is_lowercase`: on ASCII the letters `a` to `z`.
pub open spec fn is_lower(c: char) -> bool {
    if (c as u32) < 0x80 {
        'a' <= c && c <= 'z'
    } else {
        lower_beyond_ascii(c)
    }
}

/// The first character of `char::to_lowercase`: on ASCII an uppercase
/// letter's lowercase letter, any other character itself.
pub open spec fn lower_head(c: char) -> char {
    if (c as u32) < 0x80 {
        if 'A' <= c && c <= 'Z' {
            ((c as u32) + 32) as char
        } else {
            c
        }
    } else {
        lower_head_beyond_ascii(c)
    }
}

/// `char::is_whitespace`, by the `White_Space` code points.
pub(crate) fn char_is_whitespace(c: char) -> (r: bool)
    ensures
        r == is_white(c),
{
    let u = c as u32;
    (0x09 <= u && u <= 0x0d) || u == 0x20 || u == 0x85 || u == 0xa0 || u == 0x1680 || (0x2000 <= u
        && u <= 0x200a) || u == 0x2028 || u == 0x2029 || u == 0x202f || u == 0x205f || u == 0x3000
}

/// Calls std's `char::is_alphanumeric`: ASCII letters and digits, and
/// beyond ASCII what `alnum_beyond_ascii` names.
#[verifier::external_body]
pub(crate) fn char_is_alphanumeric(c: char) -> (r: bool)
    ensures
        r == is_alnum(c),
        (c as u32) >= 0x80 ==> r == alnum_beyond_ascii(c),
{
    c.is_alphanumeric()
}

/// Calls std's `char::is_uppercase`: `A` to `Z` on ASCII, and beyond ASCII
/// what `upper_beyond_ascii` names.
#[verifier::external_body]
pub(crate) fn char_is_uppercase(c: char) -> (r: bool)
    ensures
        r == is_upper(c),
        (c as u32) >= 0x80 ==> r == upper_beyond_ascii(c),
{
    c.is_uppercase()
}

/// Calls std's `char::is_lowercase`: `a` to `z` on ASCII, and beyond ASCII
/// what `lower_beyond_ascii` names.
#[verifier::external_body]
pub(crate) fn char_is_lowercase(c: char) -> (r: bool)
    ensures
        r == is_lower(c),
        (c as u32) >= 0x80 ==> r == lower_beyond_ascii(c),
{
    c.is_lowercase()
}

/// Calls std's `char::to_lowercase` and takes the first char it yields
/// (the char itself if it yields none): an ASCII capital's small letter,
/// any other ASCII character itself, and beyond ASCII what
/// `lower_head_beyond_ascii` names.
#[verifier::external_body]
pub(crate) fn char_lower_head(c: char) -> (r: char)
    ensures
        r == lower_head(c),
        (c as u32) >= 0x80 ==> r == lower_head_beyond_ascii(c),
{
    c.to_lowercase().next().unwrap_or(c)
}

pub open spec fn is_digit(c: char) -> bool {
    '0' <= c && c <= '9'
}

pub open spec fn is_ascii_lower(c: char) -> bool {
    'a' <= c && c <= 'z'
}

pub open spec fn is_ascii_upper(c: char) -> bool {
    'A' <= c && c <= 'Z'
}

/// Identifier character: alphanumeric or `_`.
pub open spec fn is_ident(c: char) -> bool {
    is_alnum(c) || c == '_'
}

pub fn ident_char(c: char) -> (r: bool)
    ensures
        r == is_ident(c),
{
    c == '_' || char_is_alphanumeric(c)
}

// ---------------------------------------------------------------------
// Conversions
// ---------------------------------------------------------------------

/// The characters of `s`, in order.
pub fn chars_of(s: &str) -> (v: Vec<char>)
    ensures
        v@ == s@,
{
    let mut v: Vec<char> = Vec::new();
    for c in it: s.chars()
        invariant
            v@ == it.seq().take(it.index() as int),
            it.seq() == s@,
    {
        v.push(c);
    }
    v
}

/// Appends one character to a string (std's `String::push`).
#[verifier::external_body]
pub(crate) fn push_char(s: &mut String, c: char)
    ensures
        final(s)@ == old(s)@.push(c),
{
    s.push(c);
}

/// A string holding exactly the given characters.
pub fn string_of(v: &Vec<char>) -> (s: String)
    ensures
        s@ == v@,
{
    let mut s = String::new();
    let mut i: usize = 0;
    while i < v.len()
        invariant
            i <= v.len(),
            s@ == v@.take(i as int),
        decreases v.len() - i,
    {
        push_char(&mut s, v[i]);
        assert(v@.take(i as int).push(v@[i as int]) =~= v@.take(i + 1));
        i = i + 1;
    }
    assert(v@.take(v.len() as int) =~= v@);
    s
}

/// A string from an optional character vector.
pub fn opt_string(v: &Option<Vec<char>>) -> (s: Option<String>)
    ensures
        s is Some <==> v is Some,
        s is Some ==> s->0@ == v->0@,
{
    match v {
        Some(x) => Some(string_of(x)),
        None => None,
    }
}

/// The characters of every line.
pub fn lines_of(lines: &[&str]) -> (r: Vec<Vec<char>>)
    ensures
        r@.len() == lines@.len(),
        views(r@) == strs_view(lines@),
{
    let mut r: Vec<Vec<char>> = Vec::new();
    let mut i: usize = 0;
    while i < lines.len()
        invariant
            i <= lines.len(),
            r@.len() == i,
            views(r@) == strs_view(lines@).take(i as int),
        decreases lines.len() - i,
    {
        let v = chars_of(lines[i]);
        let ghost old_r = r@;
        r.push(v);
        assert forall|k: int| 0 <= k < i + 1 implies views(r@)[k] == strs_view(lines@).take(i + 1)[k] by {
            if k < i {
                assert(views(old_r)[k] == strs_view(lines@).take(i as int)[k]);
                assert(r@[k] == old_r[k]);
            }
        }
        assert(views(r@) =~= strs_view(lines@).take(i + 1));
        i = i + 1;
    }
    assert(strs_view(lines@).take(lines.len() as int) =~= strs_view(lines@));
    r
}

pub open spec fn views(v: Seq<Vec<char>>) -> Seq<Seq<char>> {
    v.map_values(|x: Vec<char>| x@)
}

pub open spec fn strs_view(v: Seq<&str>) -> Seq<Seq<char>> {
    v.map_values(|x: &str| x@)
}

pub open spec fn strings_view(v: Seq<String>) -> Seq<Seq<char>> {
    v.map_values(|x: String| x@)
}

/// A copy of `s[a..b]`.
pub fn slice(s: &Vec<char>, a: usize, b: usize) -> (r: Vec<char>)
    requires
        a <= b <= s.len(),
    ensures
        r@ == s@.subrange(a as int, b as int),
{
    let mut r: Vec<char> = Vec::new();
    let mut i: usize = a;
    while i < b
        invariant
            a <= i <= b <= s.len(),
            r@ == s@.subrange(a as int, i as int),
        decreases b - i,
    {
        r.push(s[i]);
        assert(r@ =~= s@.subrange(a as int, i + 1));
        i = i + 1;
    }
    r
}

/// `s[a..]`.
pub fn tail(s: &Vec<char>, a: usize) -> (r: Vec<char>)
    requires
        a <= s.len(),
    ensures
        r@ == s@.subrange(a as int, s@.len() as int),
{
    slice(s, a, s.len())
}

/// Concatenation.
pub fn concat(x: &Vec<char>, y: &Vec<char>) -> (r: Vec<char>)
    ensures
        r@ == x@ + y@,
{
    let mut r = x.clone();
    let mut i: usize = 0;
    while i < y.len()
        invariant
            i <= y.len(),
            r@ == x@ + y@.take(i as int),
        decreases y.len() - i,
    {
        r.push(y[i]);
        assert(r@ =~= x@ + y@.take(i + 1));
        i = i + 1;
    }
    assert(y@.take(y.len() as int) =~= y@);
    r
}

/// Appends `y` to `x` in place.
pub fn append(x: &mut Vec<char>, y: &Vec<char>)
    ensures
        final(x)@ == old(x)@ + y@,
{
    let mut i: usize = 0;
    while i < y.len()
        invariant
            i <= y.len(),
            x@ == old(x)@ + y@.take(i as int),
        decreases y.len() - i,
    {
        x.push(y[i]);
        assert(x@ =~= old(x)@ + y@.take(i + 1));
        i = i + 1;
    }
    assert(y@.take(y.len() as int) =~= y@);
}

/// Equality of two character sequences.
pub fn eq(x: &Vec<char>, y: &Vec<char>) -> (r: bool)
    ensures
        r == (x@ == y@),
{
    if x.len() != y.len() {
        return false;
    }
    let mut i: usize = 0;
    while i < x.len()
        invariant
            x.len() == y.len(),
            i <= x.len(),
            x@.take(i as int) == y@.take(i as int),
        decreases x.len() - i,
    {
        if x[i] != y[i] {
            return false;
        }
        assert(x@.take(i + 1) =~= x@.take(i as int).push(x@[i as int]));
        assert(y@.take(i + 1) =~= y@.take(i as int).push(y@[i as int]));
        i = i + 1;
    }
    assert(x@ =~= x@.take(x.len() as int));
    assert(y@ =~= y@.take(y.len() as int));
    true
}

/// Equality with a literal.
pub fn eq_str(x: &Vec<char>, y: &str) -> (r: bool)
    ensures
        r == (x@ == y@),
{
    let v = chars_of(y);
    eq(x, &v)
}

// ---------------------------------------------------------------------
// Prefixes and suffixes
// ---------------------------------------------------------------------

pub open spec fn starts_with(s: Seq<char>, p: Seq<char>) -> bool {
    p.len() <= s.len() && s.subrange(0, p.len() as int) == p
}

pub open spec fn ends_with(s: Seq<char>, p: Seq<char>) -> bool {
    p.len() <= s.len() && s.subrange(s.len() - p.len(), s.len() as int) == p
}

/// Does `p` occur in `s` at index `i`?
pub open spec fn occurs_at(s: Seq<char>, p: Seq<char>, i: int) -> bool {
    0 <= i && i + p.len() <= s.len() && s.subrange(i, i + p.len()) == p
}

pub fn occurs_at_exec(s: &Vec<char>, p: &Vec<char>, i: usize) -> (r: bool)
    ensures
        r == occurs_at(s@, p@, i as int),
{
    if i > s.len() || p.len() > s.len() - i {
        return false;
    }
    let mut k: usize = 0;
    while k < p.len()
        invariant
            i + p.len() <= s.len(),
            k <= p.len(),
            s@.subrange(i as int, i + k) == p@.take(k as int),
        decreases p.len() - k,
    {
        if s[i + k] != p[k] {
            assert(s@.subrange(i as int, i + p.len())[k as int] == s@[i + k]);
            return false;
        }
        assert(s@.subrange(i as int, i + k + 1) =~= s@.subrange(i as int, i + k).push(s@[i + k]));
        assert(p@.take(k + 1) =~= p@.take(k as int).push(p@[k as int]));
        k = k + 1;
    }
    assert(p@.take(p.len() as int) =~= p@);
    true
}

pub fn starts_with_exec(s: &Vec<char>, p: &Vec<char>) -> (r: bool)
    ensures
        r == starts_with(s@, p@),
{
    occurs_at_exec(s, p, 0)
}

pub fn starts_with_str(s: &Vec<char>, p: &str) -> (r: bool)
    ensures
        r == starts_with(s@, p@),
{
    let v = chars_of(p);
    occurs_at_exec(s, &v, 0)
}

pub fn ends_with_str(s: &Vec<char>, p: &str) -> (r: bool)
    ensures
        r == ends_with(s@, p@),
{
    let v = chars_of(p);
    if v.len() > s.len() {
        return false;
    }
    occurs_at_exec(s, &v, s.len() - v.len())
}

pub fn starts_with_char(s: &Vec<char>, c: char) -> (r: bool)
    ensures
        r == (s@.len() > 0 && s@[0] == c),
{
    s.len() > 0 && s[0] == c
}

pub fn ends_with_char(s: &Vec<char>, c: char) -> (r: bool)
    ensures
        r == (s@.len() > 0 && s@.last() == c),
{
    s.len() > 0 && s[s.len() - 1] == c
}

// ---------------------------------------------------------------------
// Searching
// ---------------------------------------------------------------------

/// First index `>= i` holding `c`.
pub open spec fn find_char_from(s: Seq<char>, c: char, i: int) -> Option<int>
    decreases s.len() - i,
{
    if i < 0 || i >= s.len() {
        None
    } else if s[i] == c {
        Some(i)
    } else {
        find_char_from(s, c, i + 1)
    }
}

pub open spec fn find_char(s: Seq<char>, c: char) -> Option<int> {
    find_char_from(s, c, 0)
}

pub proof fn lemma_find_char_from(s: Seq<char>, c: char, i: int)
    requires
        0 <= i,
    ensures
        find_char_from(s, c, i) matches Some(k) ==> i <= k < s.len() && s[k] == c
            && forall|j: int| i <= j < k ==> s[j] != c,
        find_char_from(s, c, i) is None ==> forall|j: int| i <= j < s.len() ==> s[j] != c,
    decreases s.len() - i,
{
    if i < s.len() && s[i] != c {
        lemma_find_char_from(s, c, i + 1);
    }
}

/// The first `c` at or after `i` is the one at `k` when none comes before.
pub proof fn lemma_find_char_first(s: Seq<char>, c: char, i: int, k: int)
    requires
        0 <= i <= k < s.len(),
        s[k] == c,
        forall|j: int| i <= j < k ==> s[j] != c,
    ensures
        find_char_from(s, c, i) == Some(k),
    decreases k - i,
{
    if i < k {
        lemma_find_char_first(s, c, i + 1, k);
    }
}

pub fn find_char_from_exec(s: &Vec<char>, c: char, i: usize) -> (r: Option<usize>)
    ensures
        r matches Some(k) ==> i <= k < s.len() && s@[k as int] == c,
        r matches Some(k) ==> find_char_from(s@, c, i as int) == Some(k as int),
        r is None ==> find_char_from(s@, c, i as int) is None,
{
    let mut k = i;
    while k < s.len()
        invariant
            i <= k,
            find_char_from(s@, c, k as int) == find_char_from(s@, c, i as int),
        decreases s.len() - k,
    {
        if s[k] == c {
            return Some(k);
        }
        k = k + 1;
    }
    None
}

pub fn find_char_exec(s: &Vec<char>, c: char) -> (r: Option<usize>)
    ensures
        r matches Some(k) ==> k < s.len() && s@[k as int] == c,
        r matches Some(k) ==> find_char(s@, c) == Some(k as int),
        r is None ==> find_char(s@, c) is None,
{
    find_char_from_exec(s, c, 0)
}

/// Last index `< j` holding `c`.
pub open spec fn rfind_char_before(s: Seq<char>, c: char, j: int) -> Option<int>
    decreases j,
{
    if j <= 0 || j > s.len() {
        None
    } else if s[j - 1] == c {
        Some(j - 1)
    } else {
        rfind_char_before(s, c, j - 1)
    }
}

pub open spec fn rfind_char(s: Seq<char>, c: char) -> Option<int> {
    rfind_char_before(s, c, s.len() as int)
}

pub proof fn lemma_rfind_char_before(s: Seq<char>, c: char, j: int)
    requires
        j <= s.len(),
    ensures
        rfind_char_before(s, c, j) matches Some(k) ==> 0 <= k < j && s[k] == c
            && forall|m: int| k < m < j ==> s[m] != c,
        rfind_char_before(s, c, j) is None ==> forall|m: int| 0 <= m < j ==> s[m] != c,
    decreases j,
{
    if j > 0 && s[j - 1] != c {
        lemma_rfind_char_before(s, c, j - 1);
    }
}

pub fn rfind_char_exec(s: &Vec<char>, c: char) -> (r: Option<usize>)
    ensures
        r matches Some(k) ==> k < s.len() && s@[k as int] == c,
        r matches Some(k) ==> rfind_char(s@, c) == Some(k as int),
        r is None ==> rfind_char(s@, c) is None,
{
    let mut j = s.len();
    while j > 0
        invariant
            j <= s.len(),
            rfind_char_before(s@, c, j as int) == rfind_char(s@, c),
        decreases j,
    {
        if s[j - 1] == c {
            return Some(j - 1);
        }
        j = j - 1;
    }
    None
}

/// First index `>= i` at which `p` occurs.
pub open spec fn find_seq_from(s: Seq<char>, p: Seq<char>, i: int) -> Option<int>
    decreases s.len() + 1 - i,
{
    if i < 0 || i + p.len() > s.len() {
        None
    } else if occurs_at(s, p, i) {
        Some(i)
    } else {
        find_seq_from(s, p, i + 1)
    }
}

pub open spec fn find_seq(s: Seq<char>, p: Seq<char>) -> Option<int> {
    find_seq_from(s, p, 0)
}

pub open spec fn contains_seq(s: Seq<char>, p: Seq<char>) -> bool {
    find_seq(s, p) is Some
}

pub proof fn lemma_find_seq_from(s: Seq<char>, p: Seq<char>, i: int)
    requires
        0 <= i,
    ensures
        find_seq_from(s, p, i) matches Some(k) ==> i <= k && k + p.len() <= s.len()
            && occurs_at(s, p, k),
    decreases s.len() + 1 - i,
{
    if i + p.len() <= s.len() && !occurs_at(s, p, i) {
        lemma_find_seq_from(s, p, i + 1);
    }
}

pub fn find_seq_from_exec(s: &Vec<char>, p: &Vec<char>, i: usize) -> (r: Option<usize>)
    ensures
        r matches Some(k) ==> i <= k && k + p.len() <= s.len(),
        r matches Some(k) ==> find_seq_from(s@, p@, i as int) == Some(k as int),
        r is None ==> find_seq_from(s@, p@, i as int) is None,
{
    if p.len() == 0 {
        if i <= s.len() {
            assert(s@.subrange(i as int, i as int) =~= p@);
            return Some(i);
        }
        return None;
    }
    let mut k = i;
    while k < s.len() && p.len() <= s.len() - k
        invariant
            i <= k,
            p.len() > 0,
            find_seq_from(s@, p@, k as int) == find_seq_from(s@, p@, i as int),
        decreases s.len() - k,
    {
        if occurs_at_exec(s, p, k) {
            proof { lemma_find_seq_from(s@, p@, i as int); }
            return Some(k);
        }
        k = k + 1;
    }
    None
}

pub fn find_str(s: &Vec<char>, p: &str) -> (r: Option<usize>)
    ensures
        r matches Some(k) ==> k + p@.len() <= s.len(),
        r matches Some(k) ==> find_seq(s@, p@) == Some(k as int),
        r is None ==> find_seq(s@, p@) is None,
{
    let v = chars_of(p);
    find_seq_from_exec(s, &v, 0)
}

pub fn contains_str(s: &Vec<char>, p: &str) -> (r: bool)
    ensures
        r == contains_seq(s@, p@),
{
    find_str(s, p).is_some()
}

pub open spec fn contains_char(s: Seq<char>, c: char) -> bool {
    find_char(s, c) is Some
}

pub fn contains_char_exec(s: &Vec<char>, c: char) -> (r: bool)
    ensures
        r == contains_char(s@, c),
{
    find_char_exec(s, c).is_some()
}

/// Last index at or below `j` at which `p` occurs.
pub open spec fn rfind_seq_upto(s: Seq<char>, p: Seq<char>, j: int) -> Option<int>
    decreases j + 1,
{
    if j < 0 {
        None
    } else if occurs_at(s, p, j) {
        Some(j)
    } else {
        rfind_seq_upto(s, p, j - 1)
    }
}

/// `str::rfind(p)`.
pub open spec fn rfind_seq(s: Seq<char>, p: Seq<char>) -> Option<int> {
    rfind_seq_upto(s, p, s.len() - p.len())
}

pub proof fn lemma_rfind_seq_upto(s: Seq<char>, p: Seq<char>, j: int)
    ensures
        rfind_seq_upto(s, p, j) matches Some(k) ==> 0 <= k <= j && occurs_at(s, p, k),
    decreases j + 1,
{
    if j >= 0 && !occurs_at(s, p, j) {
        lemma_rfind_seq_upto(s, p, j - 1);
    }
}

pub fn rfind_str(s: &Vec<char>, p: &str) -> (r: Option<usize>)
    ensures
        r matches Some(k) ==> k + p@.len() <= s.len(),
        opt_usize(r) == rfind_seq(s@, p@),
{
    let pv = chars_of(p);
    if pv.len() > s.len() {
        return None;
    }
    proof { lemma_rfind_seq_upto(s@, p@, s@.len() - p@.len()); }
    let mut j: usize = s.len() - pv.len();
    loop
        invariant
            pv@ == p@,
            pv.len() <= s.len(),
            j <= s.len() - pv.len(),
            rfind_seq_upto(s@, p@, j as int) == rfind_seq(s@, p@),
        decreases j,
    {
        if occurs_at_exec(s, &pv, j) {
            return Some(j);
        }
        if j == 0 {
            return None;
        }
        j = j - 1;
    }
}

/// An optional index as an integer.
pub open spec fn opt_usize(r: Option<usize>) -> Option<int> {
    match r {
        Some(k) => Some(k as int),
        None => None,
    }
}

// ---------------------------------------------------------------------
// Trimming
// ---------------------------------------------------------------------

/// Index of the first non-whitespace character at or after `i`.
pub open spec fn skip_ws(s: Seq<char>, i: int) -> int
    decreases s.len() - i,
{
    if 0 <= i < s.len() && is_white(s[i]) {
        skip_ws(s, i + 1)
    } else {
        i
    }
}

/// One past the last non-whitespace character at or before `j`.
pub open spec fn back_ws(s: Seq<char>, j: int) -> int
    decreases j,
{
    if 0 < j <= s.len() && is_white(s[j - 1]) {
        back_ws(s, j - 1)
    } else {
        j
    }
}

pub proof fn lemma_skip_ws(s: Seq<char>, i: int)
    requires
        0 <= i <= s.len(),
    ensures
        i <= skip_ws(s, i) <= s.len(),
        forall|k: int| i <= k < skip_ws(s, i) ==> is_white(s[k]),
        skip_ws(s, i) < s.len() ==> !is_white(s[skip_ws(s, i)]),
    decreases s.len() - i,
{
    if i < s.len() && is_white(s[i]) {
        lemma_skip_ws(s, i + 1);
    }
}

pub proof fn lemma_back_ws(s: Seq<char>, j: int)
    requires
        0 <= j <= s.len(),
    ensures
        0 <= back_ws(s, j) <= j,
        forall|k: int| back_ws(s, j) <= k < j ==> is_white(s[k]),
        back_ws(s, j) > 0 ==> !is_white(s[back_ws(s, j) - 1]),
    decreases j,
{
    if j > 0 && is_white(s[j - 1]) {
        lemma_back_ws(s, j - 1);
    }
}

pub open spec fn trim_start(s: Seq<char>) -> Seq<char> {
    s.subrange(skip_ws(s, 0), s.len() as int)
}

pub open spec fn trim_end(s: Seq<char>) -> Seq<char> {
    s.subrange(0, back_ws(s, s.len() as int))
}

/// `str::trim`: both ends stripped of whitespace.
pub open spec fn trim(s: Seq<char>) -> Seq<char> {
    trim_end(trim_start(s))
}

pub fn skip_ws_exec(s: &Vec<char>, i: usize) -> (r: usize)
    requires
        i <= s.len(),
    ensures
        r == skip_ws(s@, i as int),
        i <= r <= s.len(),
{
    proof { lemma_skip_ws(s@, i as int); }
    let mut k = i;
    while k < s.len() && char_is_whitespace(s[k])
        invariant
            i <= k <= s.len(),
            skip_ws(s@, k as int) == skip_ws(s@, i as int),
        decreases s.len() - k,
    {
        k = k + 1;
    }
    k
}

pub fn back_ws_exec(s: &Vec<char>, j: usize) -> (r: usize)
    requires
        j <= s.len(),
    ensures
        r == back_ws(s@, j as int),
        r <= j,
{
    proof { lemma_back_ws(s@, j as int); }
    let mut k = j;
    while k > 0 && char_is_whitespace(s[k - 1])
        invariant
            k <= j <= s.len(),
            back_ws(s@, k as int) == back_ws(s@, j as int),
        decreases k,
    {
        k = k - 1;
    }
    k
}

pub fn trim_start_exec(s: &Vec<char>) -> (r: Vec<char>)
    ensures
        r@ == trim_start(s@),
{
    let a = skip_ws_exec(s, 0);
    tail(s, a)
}

pub fn trim_end_exec(s: &Vec<char>) -> (r: Vec<char>)
    ensures
        r@ == trim_end(s@),
{
    let b = back_ws_exec(s, s.len());
    slice(s, 0, b)
}

pub fn trim_exec(s: &Vec<char>) -> (r: Vec<char>)
    ensures
        r@ == trim(s@),
{
    let t = trim_start_exec(s);
    trim_end_exec(&t)
}

// ---------------------------------------------------------------------
// Scanning by character class
// ---------------------------------------------------------------------

/// The character classes a scan stops at.
pub enum Stop {
    /// Not an identifier character (`alphanumeric` or `_`).
    NonIdent,
    /// Not alphanumeric, `_` or `:`.
    NonWord,
    /// A comma or whitespace.
    CommaOrWhite,
    /// Whitespace.
    White,
    /// A space or a tab.
    SpaceOrTab,
    /// Not an ASCII lowercase letter, digit or `_`.
    NonLowerWord,
    /// Anything but the given character.
    Other(char),
    /// Anything but `"` or `'`.
    NonQuote,
    /// Anything but `"`, `'` or `:`.
    NonQuoteOrColon,
    /// Not an ASCII digit.
    NonDigit,
}

pub open spec fn stops(k: Stop, c: char) -> bool {
    match k {
        Stop::NonIdent => !is_ident(c),
        Stop::NonWord => !(is_ident(c) || c == ':'),
        Stop::CommaOrWhite => c == ',' || is_white(c),
        Stop::White => is_white(c),
        Stop::SpaceOrTab => c == ' ' || c == '\t',
        Stop::NonLowerWord => !(is_ascii_lower(c) || is_digit(c) || c == '_'),
        Stop::Other(x) => c != x,
        Stop::NonQuote => !(c == '"' || c == '\''),
        Stop::NonQuoteOrColon => !(c == '"' || c == '\'' || c == ':'),
        Stop::NonDigit => !is_digit(c),
    }
}

pub fn stops_exec(k: &Stop, c: char) -> (r: bool)
    ensures
        r == stops(*k, c),
{
    match k {
        Stop::NonIdent => !ident_char(c),
        Stop::NonWord => !(ident_char(c) || c == ':'),
        Stop::CommaOrWhite => c == ',' || char_is_whitespace(c),
        Stop::White => char_is_whitespace(c),
        Stop::SpaceOrTab => c == ' ' || c == '\t',
        Stop::NonLowerWord => !(('a' <= c && c <= 'z') || ('0' <= c && c <= '9') || c == '_'),
        Stop::Other(x) => c != *x,
        Stop::NonQuote => !(c == '"' || c == '\''),
        Stop::NonQuoteOrColon => !(c == '"' || c == '\'' || c == ':'),
        Stop::NonDigit => !('0' <= c && c <= '9'),
    }
}

/// First index `>= i` whose character stops the scan, or `s.len()`.
pub open spec fn scan(s: Seq<char>, k: Stop, i: int) -> int
    decreases s.len() - i,
{
    if 0 <= i < s.len() && !stops(k, s[i]) {
        scan(s, k, i + 1)
    } else {
        i
    }
}

pub proof fn lemma_scan(s: Seq<char>, k: Stop, i: int)
    requires
        0 <= i <= s.len(),
    ensures
        i <= scan(s, k, i) <= s.len(),
        forall|m: int| i <= m < scan(s, k, i) ==> !stops(k, s[m]),
        scan(s, k, i) < s.len() ==> stops(k, s[scan(s, k, i)]),
    decreases s.len() - i,
{
    if i < s.len() && !stops(k, s[i]) {
        lemma_scan(s, k, i + 1);
    }
}

pub fn scan_exec(s: &Vec<char>, k: &Stop, i: usize) -> (r: usize)
    requires
        i <= s.len(),
    ensures
        r == scan(s@, *k, i as int),
        i <= r <= s.len(),
{
    proof { lemma_scan(s@, *k, i as int); }
    let mut m = i;
    while m < s.len() && !stops_exec(k, s[m])
        invariant
            i <= m <= s.len(),
            scan(s@, *k, m as int) == scan(s@, *k, i as int),
        decreases s.len() - m,
    {
        m = m + 1;
    }
    m
}

/// The leading run of `s` that the scan does not stop in.
pub open spec fn take_until(s: Seq<char>, k: Stop) -> Seq<char> {
    s.subrange(0, scan(s, k, 0))
}

pub fn take_until_exec(s: &Vec<char>, k: &Stop) -> (r: Vec<char>)
    ensures
        r@ == take_until(s@, *k),
{
    let e = scan_exec(s, k, 0);
    slice(s, 0, e)
}


/// One past the last character at or before `j` that stops the scan
/// (walking backwards over characters that do not), or 0.
pub open spec fn back_scan(s: Seq<char>, k: Stop, j: int) -> int
    decreases j,
{
    if 0 < j <= s.len() && !stops(k, s[j - 1]) {
        back_scan(s, k, j - 1)
    } else {
        j
    }
}

pub proof fn lemma_back_scan(s: Seq<char>, k: Stop, j: int)
    requires
        0 <= j <= s.len(),
    ensures
        0 <= back_scan(s, k, j) <= j,
        forall|m: int| back_scan(s, k, j) <= m < j ==> !stops(k, s[m]),
        back_scan(s, k, j) > 0 ==> stops(k, s[back_scan(s, k, j) - 1]),
    decreases j,
{
    if j > 0 && !stops(k, s[j - 1]) {
        lemma_back_scan(s, k, j - 1);
    }
}

pub fn back_scan_exec(s: &Vec<char>, k: &Stop, j: usize) -> (r: usize)
    requires
        j <= s.len(),
    ensures
        r == back_scan(s@, *k, j as int),
        r <= j,
{
    proof { lemma_back_scan(s@, *k, j as int); }
    let mut m = j;
    while m > 0 && !stops_exec(k, s[m - 1])
        invariant
            m <= j <= s.len(),
            back_scan(s@, *k, m as int) == back_scan(s@, *k, j as int),
        decreases m,
    {
        m = m - 1;
    }
    m
}

/// `str::trim_start_matches` for the characters the scan passes over.
pub open spec fn strip_lead(s: Seq<char>, k: Stop) -> Seq<char> {
    s.subrange(scan(s, k, 0), s.len() as int)
}

/// `str::trim_end_matches` for the characters the scan passes over.
pub open spec fn strip_tail(s: Seq<char>, k: Stop) -> Seq<char> {
    s.subrange(0, back_scan(s, k, s.len() as int))
}

/// `str::trim_matches`: both ends.
pub open spec fn strip_both(s: Seq<char>, k: Stop) -> Seq<char> {
    strip_tail(strip_lead(s, k), k)
}

pub fn strip_lead_exec(s: &Vec<char>, k: &Stop) -> (r: Vec<char>)
    ensures
        r@ == strip_lead(s@, *k),
{
    let a = scan_exec(s, k, 0);
    tail(s, a)
}

pub fn strip_tail_exec(s: &Vec<char>, k: &Stop) -> (r: Vec<char>)
    ensures
        r@ == strip_tail(s@, *k),
{
    let b = back_scan_exec(s, k, s.len());
    slice(s, 0, b)
}

pub fn strip_both_exec(s: &Vec<char>, k: &Stop) -> (r: Vec<char>)
    ensures
        r@ == strip_both(s@, *k),
{
    let t = strip_lead_exec(s, k);
    strip_tail_exec(&t, k)
}

// ---------------------------------------------------------------------
// Splitting
// ---------------------------------------------------------------------

/// `str::trim_start_matches(p)` for a string pattern: every leading
/// repetition of `p` removed.
pub open spec fn strip_prefix_rep(s: Seq<char>, p: Seq<char>) -> Seq<char>
    decreases s.len(),
{
    if p.len() > 0 && starts_with(s, p) {
        strip_prefix_rep(s.subrange(p.len() as int, s.len() as int), p)
    } else {
        s
    }
}

pub fn strip_prefix_rep_exec(s: &Vec<char>, p: &str) -> (r: Vec<char>)
    ensures
        r@ == strip_prefix_rep(s@, p@),
{
    let pv = chars_of(p);
    let mut cur = s.clone();
    assert(cur@ =~= s@);
    while pv.len() > 0 && starts_with_exec(&cur, &pv)
        invariant
            pv@ == p@,
            strip_prefix_rep(cur@, p@) == strip_prefix_rep(s@, p@),
        decreases cur.len(),
    {
        cur = tail(&cur, pv.len());
    }
    cur
}

/// `str::trim_end_matches(p)` for a string pattern: every trailing
/// repetition of `p` removed.
pub open spec fn strip_suffix_rep(s: Seq<char>, p: Seq<char>) -> Seq<char>
    decreases s.len(),
{
    if p.len() > 0 && ends_with(s, p) {
        strip_suffix_rep(s.subrange(0, s.len() - p.len()), p)
    } else {
        s
    }
}

pub fn strip_suffix_rep_exec(s: &Vec<char>, p: &str) -> (r: Vec<char>)
    ensures
        r@ == strip_suffix_rep(s@, p@),
{
    let pv = chars_of(p);
    let mut cur = s.clone();
    assert(cur@ =~= s@);
    while pv.len() > 0 && ends_with_str(&cur, p)
        invariant
            pv@ == p@,
            strip_suffix_rep(cur@, p@) == strip_suffix_rep(s@, p@),
        decreases cur.len(),
    {
        cur = slice(&cur, 0, cur.len() - pv.len());
    }
    cur
}

/// `str::split_whitespace` from index `i`.
pub open spec fn words_from(s: Seq<char>, i: int) -> Seq<Seq<char>>
    decreases s.len() - i,
{
    let a = skip_ws(s, i);
    if i < 0 || i > s.len() || a >= s.len() || a < i {
        Seq::empty()
    } else {
        let b = scan(s, Stop::White, a);
        if b <= a || b > s.len() {
            Seq::empty()
        } else {
            seq![s.subrange(a, b)] + words_from(s, b)
        }
    }
}

/// `str::split_whitespace`.
pub open spec fn words(s: Seq<char>) -> Seq<Seq<char>> {
    words_from(s, 0)
}

pub fn words_exec(s: &Vec<char>) -> (r: Vec<Vec<char>>)
    ensures
        views(r@) == words(s@),
{
    let mut out: Vec<Vec<char>> = Vec::new();
    let mut i: usize = 0;
    assert(views(out@) + words_from(s@, 0) =~= words(s@));
    loop
        invariant
            i <= s.len(),
            views(out@) + words_from(s@, i as int) == words(s@),
        decreases s.len() - i,
    {
        proof { lemma_skip_ws(s@, i as int); }
        let a = skip_ws_exec(s, i);
        if a >= s.len() {
            assert(views(out@) + Seq::<Seq<char>>::empty() =~= views(out@));
            return out;
        }
        proof { lemma_scan(s@, Stop::White, a as int); }
        let b = scan_exec(s, &Stop::White, a);
        assert(b > a);
        let piece = slice(s, a, b);
        let ghost before = views(out@);
        let ghost rest = words_from(s@, b as int);
        out.push(piece);
        assert(views(out@) =~= before.push(piece@));
        assert(before + (seq![piece@] + rest) =~= before.push(piece@) + rest);
        i = b;
    }
}

/// `str::split(c)` from index `start`: the pieces between separators.
pub open spec fn split_from(s: Seq<char>, c: char, start: int) -> Seq<Seq<char>>
    decreases s.len() - start,
{
    if start < 0 || start > s.len() {
        Seq::empty()
    } else {
        match find_char_from(s, c, start) {
            Some(k) => if k < start || k >= s.len() {
                Seq::empty()
            } else {
                seq![s.subrange(start, k)] + split_from(s, c, k + 1)
            },
            None => seq![s.subrange(start, s.len() as int)],
        }
    }
}

/// `str::split(c)`.
pub open spec fn split_char(s: Seq<char>, c: char) -> Seq<Seq<char>> {
    split_from(s, c, 0)
}

pub fn split_char_exec(s: &Vec<char>, c: char) -> (r: Vec<Vec<char>>)
    ensures
        views(r@) == split_char(s@, c),
{
    let mut out: Vec<Vec<char>> = Vec::new();
    let mut start: usize = 0;
    assert(views(out@) =~= Seq::<Seq<char>>::empty());
    assert(Seq::<Seq<char>>::empty() + split_from(s@, c, 0) =~= split_from(s@, c, 0));
    loop
        invariant
            start <= s.len(),
            views(out@) + split_from(s@, c, start as int) == split_char(s@, c),
        decreases s.len() - start,
    {
        match find_char_from_exec(s, c, start) {
            Some(k) => {
                let piece = slice(s, start, k);
                let ghost before = views(out@);
                let ghost rest = split_from(s@, c, k + 1);
                out.push(piece);
                assert(views(out@) =~= before.push(piece@));
                assert(before + (seq![piece@] + rest) =~= before.push(piece@) + rest);
                start = k + 1;
            },
            None => {
                let piece = tail(s, start);
                let ghost before = views(out@);
                out.push(piece);
                assert(views(out@) =~= before.push(piece@));
                assert(before + seq![piece@] =~= before.push(piece@));
                return out;
            },
        }
    }
}


/// `str::split(p)` for a non-empty separator, from index `start`.
pub open spec fn split_seq_from(s: Seq<char>, p: Seq<char>, start: int) -> Seq<Seq<char>>
    decreases s.len() - start,
{
    if start < 0 || start > s.len() || p.len() == 0 {
        Seq::empty()
    } else {
        match find_seq_from(s, p, start) {
            Some(k) => if k < start || k + p.len() > s.len() {
                Seq::empty()
            } else {
                seq![s.subrange(start, k)] + split_seq_from(s, p, k + p.len())
            },
            None => seq![s.subrange(start, s.len() as int)],
        }
    }
}

/// `str::split(p)` for a non-empty separator.
pub open spec fn split_seq(s: Seq<char>, p: Seq<char>) -> Seq<Seq<char>> {
    split_seq_from(s, p, 0)
}

pub fn split_seq_exec(s: &Vec<char>, p: &Vec<char>) -> (r: Vec<Vec<char>>)
    requires
        p.len() > 0,
    ensures
        views(r@) == split_seq(s@, p@),
{
    let mut out: Vec<Vec<char>> = Vec::new();
    let mut start: usize = 0;
    assert(views(out@) =~= Seq::<Seq<char>>::empty());
    assert(Seq::<Seq<char>>::empty() + split_seq_from(s@, p@, 0) =~= split_seq_from(s@, p@, 0));
    loop
        invariant
            p.len() > 0,
            start <= s.len(),
            views(out@) + split_seq_from(s@, p@, start as int) == split_seq(s@, p@),
        decreases s.len() - start,
    {
        match find_seq_from_exec(s, p, start) {
            Some(k) => {
                let piece = slice(s, start, k);
                let ghost before = views(out@);
                let ghost rest = split_seq_from(s@, p@, k + p.len());
                out.push(piece);
                assert(views(out@) =~= before.push(piece@));
                assert(before + (seq![piece@] + rest) =~= before.push(piece@) + rest);
                start = k + p.len();
            },
            None => {
                let piece = tail(s, start);
                let ghost before = views(out@);
                out.push(piece);
                assert(views(out@) =~= before.push(piece@));
                assert(before + seq![piece@] =~= before.push(piece@));
                return out;
            },
        }
    }
}

/// Bytes that `c` takes in UTF-8.
pub open spec fn utf8_width(c: char) -> int {
    if (c as u32) < 0x80 {
        1
    } else if (c as u32) < 0x800 {
        2
    } else if (c as u32) < 0x10000 {
        3
    } else {
        4
    }
}

/// Bytes that `s` takes in UTF-8 (`str::len`).
pub open spec fn utf8_len(s: Seq<char>) -> int
    decreases s.len(),
{
    if s.len() == 0 {
        0
    } else {
        utf8_len(s.drop_last()) + utf8_width(s.last())
    }
}

/// Bytes of leading whitespace: `s.len() - s.trim_start().len()` on a `str`.
pub open spec fn indent_of(s: Seq<char>) -> int {
    utf8_len(s.subrange(0, skip_ws(s, 0)))
}

pub fn indent_exec(s: &Vec<char>) -> (r: u128)
    ensures
        r == indent_of(s@),
{
    let e = skip_ws_exec(s, 0);
    let mut n: u128 = 0;
    let mut i: usize = 0;
    while i < e
        invariant
            e == skip_ws(s@, 0),
            e <= s.len(),
            i <= e,
            n == utf8_len(s@.subrange(0, i as int)),
            n <= 4 * i,
        decreases e - i,
    {
        let c = s[i];
        let w: u128 = if (c as u32) < 0x80 {
            1
        } else if (c as u32) < 0x800 {
            2
        } else if (c as u32) < 0x10000 {
            3
        } else {
            4
        };
        assert(s@.subrange(0, i + 1).drop_last() =~= s@.subrange(0, i as int));
        assert(n + w <= 4 * (i + 1)) by (nonlinear_arith)
            requires n <= 4 * i, w <= 4;
        n = n + w;
        i = i + 1;
    }
    n
}


// ---------------------------------------------------------------------
// Integers
// ---------------------------------------------------------------------

/// The value of a decimal digit.
pub open spec fn digit_value(c: char) -> int {
    (c as int) - ('0' as int)
}

/// Every character is an ASCII digit.
pub open spec fn all_digits(s: Seq<char>) -> bool {
    forall|i: int| 0 <= i < s.len() ==> is_digit(#[trigger] s[i])
}

/// The number a run of decimal digits spells (leading zeros allowed).
pub open spec fn decimal(s: Seq<char>) -> int
    decreases s.len(),
{
    if s.len() == 0 {
        0
    } else {
        decimal(s.drop_last()) * 10 + digit_value(s.last())
    }
}

/// The sign and digits of an integer literal: an optional `+` or `-`.
pub open spec fn signed_digits(t: Seq<char>) -> (bool, Seq<char>) {
    if t.len() > 0 && t[0] == '-' {
        (true, t.drop_first())
    } else if t.len() > 0 && t[0] == '+' {
        (false, t.drop_first())
    } else {
        (false, t)
    }
}

/// `t.parse::<i64>()` succeeds: an optional sign, one or more digits, and a
/// value in range.
pub open spec fn parses_i64(t: Seq<char>) -> bool {
    let ds = signed_digits(t).1;
    &&& ds.len() > 0
    &&& all_digits(ds)
    &&& decimal(ds) <= if signed_digits(t).0 { 0x8000_0000_0000_0000int } else { 0x7fff_ffff_ffff_ffffint }
}

/// The value `t.parse::<i64>()` gives.
pub open spec fn i64_value(t: Seq<char>) -> int {
    if signed_digits(t).0 {
        -decimal(signed_digits(t).1)
    } else {
        decimal(signed_digits(t).1)
    }
}

pub proof fn lemma_decimal_nonneg(s: Seq<char>)
    requires
        all_digits(s),
    ensures
        decimal(s) >= 0,
    decreases s.len(),
{
    if s.len() > 0 {
        assert(all_digits(s.drop_last())) by {
            assert forall|i: int| 0 <= i < s.drop_last().len() implies is_digit(#[trigger] s.drop_last()[i]) by {
                assert(s.drop_last()[i] == s[i]);
            }
        }
        lemma_decimal_nonneg(s.drop_last());
        assert(is_digit(s[s.len() - 1]));
    }
}

/// Parse an `i64` the way `str::parse::<i64>` does.
pub fn parse_i64(t: &Vec<char>) -> (r: Option<i64>)
    ensures
        r is Some <==> parses_i64(t@),
        r matches Some(v) ==> v == i64_value(t@),
{
    let (neg, start): (bool, usize) = if t.len() > 0 && t[0] == '-' {
        (true, 1)
    } else if t.len() > 0 && t[0] == '+' {
        (false, 1)
    } else {
        (false, 0)
    };
    let ghost ds = signed_digits(t@).1;
    assert(ds =~= t@.subrange(start as int, t@.len() as int));
    if start >= t.len() {
        return None;
    }
    let mut acc: u128 = 0;
    let mut over = false;
    let mut i: usize = start;
    while i < t.len()
        invariant
            start <= i <= t.len(),
            ds == signed_digits(t@).1,
            neg == signed_digits(t@).0,
            ds == t@.subrange(start as int, t@.len() as int),
            all_digits(t@.subrange(start as int, i as int)),
            !over ==> acc == decimal(t@.subrange(start as int, i as int)) && acc <= 0x8000_0000_0000_0000,
            over ==> decimal(t@.subrange(start as int, i as int)) > 0x8000_0000_0000_0000,
        decreases t.len() - i,
    {
        let c = t[i];
        if !('0' <= c && c <= '9') {
            assert(ds[i - start] == c);
            assert(!is_digit(ds[i - start]));
            return None;
        }
        let ghost pre = t@.subrange(start as int, i as int);
        let ghost next = t@.subrange(start as int, i + 1);
        assert(next.drop_last() =~= pre);
        assert(next.last() == c);
        assert(all_digits(next)) by {
            assert forall|k: int| 0 <= k < next.len() implies is_digit(#[trigger] next[k]) by {
                if k < pre.len() {
                    assert(next[k] == pre[k]);
                }
            }
        }
        proof { lemma_decimal_nonneg(pre); }
        if !over {
            let d = (c as u32 - '0' as u32) as u128;
            acc = acc * 10 + d;
            if acc > 0x8000_0000_0000_0000 {
                over = true;
            }
        }
        i = i + 1;
    }
    assert(t@.subrange(start as int, t@.len() as int) == ds);
    if over {
        return None;
    }
    if neg {
        if acc <= 0x8000_0000_0000_0000 {
            if acc == 0x8000_0000_0000_0000 {
                Some(i64::MIN)
            } else {
                Some(-(acc as i64))
            }
        } else {
            None
        }
    } else if acc <= 0x7fff_ffff_ffff_ffff {
        Some(acc as i64)
    } else {
        None
    }
}

// ---------------------------------------------------------------------
// Numbers as text
// ---------------------------------------------------------------------

/// The character of a decimal digit.
pub open spec fn digit_char(d: int) -> char {
    if d == 0 { '0' } else if d == 1 { '1' } else if d == 2 { '2' } else if d == 3 { '3' }
    else if d == 4 { '4' } else if d == 5 { '5' } else if d == 6 { '6' } else if d == 7 { '7' }
    else if d == 8 { '8' } else { '9' }
}

/// The decimal form of a natural number, without leading zeros.
pub open spec fn dec_str(n: nat) -> Seq<char>
    decreases n,
{
    if n < 10 {
        seq![digit_char(n as int)]
    } else {
        dec_str(n / 10).push(digit_char((n % 10) as int))
    }
}

/// The decimal form of an integer, with a leading `-` when negative.
pub open spec fn int_str(i: int) -> Seq<char> {
    if i < 0 { seq!['-'] + dec_str((-i) as nat) } else { dec_str(i as nat) }
}

fn digit_exec(d: u64) -> (c: char)
    requires
        d < 10,
    ensures
        c == digit_char(d as int),
{
    if d == 0 { '0' } else if d == 1 { '1' } else if d == 2 { '2' } else if d == 3 { '3' }
    else if d == 4 { '4' } else if d == 5 { '5' } else if d == 6 { '6' } else if d == 7 { '7' }
    else if d == 8 { '8' } else { '9' }
}

/// The decimal digits of `n`.
pub fn u64_chars(n: u64) -> (r: Vec<char>)
    ensures
        r@ == dec_str(n as nat),
    decreases n,
{
    if n < 10 {
        let mut v: Vec<char> = Vec::new();
        v.push(digit_exec(n));
        assert(v@ =~= seq![digit_char(n as int)]);
        v
    } else {
        let mut v = u64_chars(n / 10);
        v.push(digit_exec(n % 10));
        v
    }
}

/// The decimal form of `i`, signed.
pub fn i64_chars(i: i64) -> (r: Vec<char>)
    ensures
        r@ == int_str(i as int),
{
    if i < 0 {
        let m: u64 = ((-(i + 1)) as u64) + 1;
        let d = u64_chars(m);
        let mut v: Vec<char> = Vec::new();
        v.push('-');
        append(&mut v, &d);
        assert(v@ =~= seq!['-'] + dec_str((-(i as int)) as nat));
        v
    } else {
        u64_chars(i as u64)
    }
}

/// `s` followed by spaces up to `w` characters (`{:<w}`).
pub open spec fn pad_right(s: Seq<char>, w: int) -> Seq<char> {
    if s.len() >= w { s } else { s + Seq::new((w - s.len()) as nat, |k: int| ' ') }
}

/// `s` preceded by `c` up to `w` characters (`{:>w}`, or `{:0w}` with `0`).
pub open spec fn pad_left(s: Seq<char>, w: int, c: char) -> Seq<char> {
    if s.len() >= w { s } else { Seq::new((w - s.len()) as nat, |k: int| c) + s }
}

pub fn pad_right_exec(s: &Vec<char>, w: usize) -> (r: Vec<char>)
    ensures
        r@ == pad_right(s@, w as int),
{
    let mut r = s.clone();
    assert(r@ == s@);
    if s.len() >= w {
        return r;
    }
    let ghost fill = Seq::new((w - s.len()) as nat, |k: int| ' ');
    while r.len() < w
        invariant
            s.len() <= r.len() <= w,
            r@ == s@ + Seq::new((r.len() - s.len()) as nat, |k: int| ' '),
        decreases w - r.len(),
    {
        r.push(' ');
        assert(r@ =~= s@ + Seq::new((r.len() - s.len()) as nat, |k: int| ' '));
    }
    r
}

pub fn pad_left_exec(s: &Vec<char>, w: usize, c: char) -> (r: Vec<char>)
    ensures
        r@ == pad_left(s@, w as int, c),
{
    if s.len() >= w {
        return s.clone();
    }
    let mut r: Vec<char> = Vec::new();
    let n = w - s.len();
    while r.len() < n
        invariant
            n == w - s.len(),
            r.len() <= n,
            r@ == Seq::new(r.len() as nat, |k: int| c),
        decreases n - r.len(),
    {
        r.push(c);
        assert(r@ =~= Seq::new(r.len() as nat, |k: int| c));
    }
    append(&mut r, s);
    r
}

/// `t.parse::<u32>()` succeeds: an optional `+`, one or more digits, and a
/// value in range.
pub open spec fn parses_u32(t: Seq<char>) -> bool {
    let ds = signed_digits(t).1;
    &&& !signed_digits(t).0
    &&& ds.len() > 0
    &&& all_digits(ds)
    &&& decimal(ds) <= 0xffff_ffffint
}

/// Parse a `u32` the way `str::parse::<u32>` does.
pub fn parse_u32(t: &Vec<char>) -> (r: Option<u32>)
    ensures
        r is Some <==> parses_u32(t@),
        r matches Some(v) ==> v == decimal(signed_digits(t@).1),
{
    if t.len() > 0 && t[0] == '-' {
        return None;
    }
    proof {
        let ds = signed_digits(t@).1;
        if all_digits(ds) { lemma_decimal_nonneg(ds); }
    }
    match parse_i64(t) {
        Some(v) => {
            if 0 <= v && v <= 0xffff_ffff {
                Some(v as u32)
            } else {
                None
            }
        },
        None => None,
    }
}

/// What `t.parse::<u64>()` gives: an optional `+`, one or more digits,
/// and a value in range.
pub open spec fn u64_text(t: Seq<char>) -> Option<int> {
    if signed_digits(t).0 || !all_digits(signed_digits(t).1) {
        None
    } else {
        digits_u64(signed_digits(t).1)
    }
}

/// Parse a `u64` the way `str::parse::<u64>` does.
pub fn parse_u64(t: &Vec<char>) -> (r: Option<u64>)
    ensures
        match r {
            Some(v) => u64_text(t@) == Some(v as int),
            None => u64_text(t@) is None,
        },
{
    if t.len() > 0 && t[0] == '-' {
        return None;
    }
    let ds = if t.len() > 0 && t[0] == '+' {
        tail(t, 1)
    } else {
        tail(t, 0)
    };
    assert(ds@ == signed_digits(t@).1);
    let mut i: usize = 0;
    while i < ds.len()
        invariant
            i <= ds.len(),
            ds@ == signed_digits(t@).1,
            !signed_digits(t@).0,
            forall|k: int| 0 <= k < i ==> is_digit(#[trigger] ds@[k]),
        decreases ds.len() - i,
    {
        if !('0' <= ds[i] && ds[i] <= '9') {
            assert(!all_digits(ds@));
            return None;
        }
        i = i + 1;
    }
    assert(all_digits(ds@));
    parse_digits_u64(&ds)
}

/// `str::split_once(c)`: the text before and after the first `c`.
pub open spec fn split_once(s: Seq<char>, c: char) -> Option<(Seq<char>, Seq<char>)> {
    match find_char(s, c) {
        Some(i) => Some((s.subrange(0, i), s.subrange(i + 1, s.len() as int))),
        None => None,
    }
}

pub fn split_once_exec(s: &Vec<char>, c: char) -> (r: Option<(Vec<char>, Vec<char>)>)
    ensures
        match r {
            Some(p) => split_once(s@, c) == Some((p.0@, p.1@)),
            None => split_once(s@, c) is None,
        },
{
    match find_char_exec(s, c) {
        Some(i) => Some((slice(s, 0, i), tail(s, i + 1))),
        None => None,
    }
}

/// `s` with every non-overlapping occurrence of `p`, left to right,
/// replaced by `r` (`str::replace`, for a non-empty `p`).
pub open spec fn replace_all(s: Seq<char>, p: Seq<char>, r: Seq<char>) -> Seq<char>
    decreases s.len(),
{
    if p.len() == 0 {
        s
    } else {
        match find_seq(s, p) {
            Some(i) => if i < 0 || i + p.len() > s.len() {
                s
            } else {
                s.subrange(0, i) + r + replace_all(s.subrange(i + p.len(), s.len() as int), p, r)
            },
            None => s,
        }
    }
}

pub fn replace_exec(s: &Vec<char>, p: &str, r: &str) -> (out: Vec<char>)
    ensures
        out@ == replace_all(s@, p@, r@),
{
    let pv = chars_of(p);
    let rv = chars_of(r);
    if pv.len() == 0 {
        return s.clone();
    }
    let mut out: Vec<char> = Vec::new();
    let mut rest = s.clone();
    assert(out@ + replace_all(rest@, p@, r@) =~= replace_all(s@, p@, r@));
    loop
        invariant
            pv@ == p@,
            rv@ == r@,
            pv.len() > 0,
            out@ + replace_all(rest@, p@, r@) == replace_all(s@, p@, r@),
        decreases rest.len(),
    {
        match find_seq_from_exec(&rest, &pv, 0) {
            Some(i) => {
                assert(find_seq(rest@, p@) == Some(i as int));
                let before = slice(&rest, 0, i);
                let after = tail(&rest, i + pv.len());
                let ghost old_out = out@;
                append(&mut out, &before);
                append(&mut out, &rv);
                assert(out@ == old_out + before@ + r@);
                assert(old_out + (before@ + r@ + replace_all(after@, p@, r@)) =~= out@ + replace_all(after@, p@, r@));
                rest = after;
            },
            None => {
                assert(find_seq(rest@, p@) is None);
                let ghost old_out = out@;
                append(&mut out, &rest);
                return out;
            },
        }
    }
}

/// The leading run of ASCII digits.
pub open spec fn digit_prefix(s: Seq<char>) -> Seq<char> {
    take_until(s, Stop::NonDigit)
}

/// `ds.parse::<u64>()` for a run of digits: `None` when empty or too
/// large.
pub open spec fn digits_u64(ds: Seq<char>) -> Option<int> {
    if ds.len() > 0 && decimal(ds) <= 0xffff_ffff_ffff_ffffint { Some(decimal(ds)) } else { None }
}

pub fn parse_digits_u64(ds: &Vec<char>) -> (r: Option<u64>)
    requires
        all_digits(ds@),
    ensures
        match r {
            Some(v) => digits_u64(ds@) == Some(v as int),
            None => digits_u64(ds@) is None,
        },
{
    if ds.len() == 0 {
        return None;
    }
    let mut acc: u128 = 0;
    let mut i: usize = 0;
    while i < ds.len()
        invariant
            i <= ds.len(),
            all_digits(ds@),
            acc <= 0x1_0000_0000_0000_0000,
            acc < 0x1_0000_0000_0000_0000 ==> acc == decimal(ds@.take(i as int)),
            acc == 0x1_0000_0000_0000_0000 ==> decimal(ds@.take(i as int)) > 0xffff_ffff_ffff_ffffint,
        decreases ds.len() - i,
    {
        let ghost pre = ds@.take(i as int);
        let ghost next = ds@.take(i + 1);
        assert(next.drop_last() =~= pre);
        assert(is_digit(ds@[i as int]));
        proof {
            assert(all_digits(pre)) by {
                assert forall|k: int| 0 <= k < pre.len() implies is_digit(#[trigger] pre[k]) by {
                    assert(pre[k] == ds@[k]);
                }
            }
            lemma_decimal_nonneg(pre);
        }
        if acc < 0x1_0000_0000_0000_0000 {
            let d = (ds[i] as u32 - '0' as u32) as u128;
            let v = acc * 10 + d;
            if v > 0xffff_ffff_ffff_ffff {
                acc = 0x1_0000_0000_0000_0000;
            } else {
                acc = v;
            }
        }
        i = i + 1;
    }
    assert(ds@.take(ds@.len() as int) =~= ds@);
    if acc <= 0xffff_ffff_ffff_ffff {
        Some(acc as u64)
    } else {
        None
    }
}

// ---------------------------------------------------------------------
// Order
// ---------------------------------------------------------------------

/// `a` sorts strictly before `b` (`String`'s order: by character codes).
pub open spec fn key_less(a: Seq<char>, b: Seq<char>) -> bool
    decreases a.len(),
{
    if b.len() == 0 {
        false
    } else if a.len() == 0 {
        true
    } else if a[0] < b[0] {
        true
    } else if a[0] > b[0] {
        false
    } else {
        key_less(a.drop_first(), b.drop_first())
    }
}

pub fn key_less_exec(a: &Vec<char>, b: &Vec<char>) -> (r: bool)
    ensures
        r == key_less(a@, b@),
{
    let mut i: usize = 0;
    assert(a@.subrange(0, a@.len() as int) =~= a@);
    assert(b@.subrange(0, b@.len() as int) =~= b@);
    while i < a.len() && i < b.len() && a[i] == b[i]
        invariant
            i <= a.len(),
            i <= b.len(),
            key_less(a@.subrange(i as int, a@.len() as int), b@.subrange(i as int, b@.len() as int))
                == key_less(a@, b@),
        decreases a.len() - i,
    {
        let ghost sa = a@.subrange(i as int, a@.len() as int);
        let ghost sb = b@.subrange(i as int, b@.len() as int);
        assert(sa.drop_first() =~= a@.subrange(i + 1, a@.len() as int));
        assert(sb.drop_first() =~= b@.subrange(i + 1, b@.len() as int));
        i = i + 1;
    }
    if i == b.len() {
        return false;
    }
    if i == a.len() {
        return true;
    }
    let ghost sa = a@.subrange(i as int, a@.len() as int);
    let ghost sb = b@.subrange(i as int, b@.len() as int);
    assert(sa[0] == a@[i as int] && sb[0] == b@[i as int]);
    a[i] < b[i]
}

/// Where a stable insertion puts `x`: before the first entry that sorts
/// after it.
pub open spec fn str_pos(s: Seq<Seq<char>>, x: Seq<char>, j: int) -> int
    decreases s.len() - j,
{
    if j < 0 || j >= s.len() {
        s.len() as int
    } else if key_less(x, s[j]) {
        j
    } else {
        str_pos(s, x, j + 1)
    }
}

pub proof fn lemma_str_pos(s: Seq<Seq<char>>, x: Seq<char>, j: int)
    requires
        0 <= j <= s.len(),
    ensures
        j <= str_pos(s, x, j) <= s.len(),
    decreases s.len() - j,
{
    if j < s.len() && !key_less(x, s[j]) {
        lemma_str_pos(s, x, j + 1);
    }
}

/// The texts in ascending order (`Vec<String>::sort`).
pub open spec fn sort_strs(s: Seq<Seq<char>>) -> Seq<Seq<char>>
    decreases s.len(),
{
    if s.len() == 0 {
        Seq::empty()
    } else {
        let t = sort_strs(s.drop_last());
        t.insert(str_pos(t, s.last(), 0), s.last())
    }
}

/// The strings in ascending order.
pub fn sort_strings(v: &Vec<String>) -> (r: Vec<String>)
    ensures
        strings_view(r@) == sort_strs(strings_view(v@)),
{
    let ghost vv = strings_view(v@);
    let mut out: Vec<String> = Vec::new();
    let mut i: usize = 0;
    assert(vv.take(0) =~= Seq::<Seq<char>>::empty());
    assert(strings_view(out@) =~= Seq::<Seq<char>>::empty());
    while i < v.len()
        invariant
            i <= v.len(),
            vv == strings_view(v@),
            strings_view(out@) == sort_strs(vv.take(i as int)),
        decreases v.len() - i,
    {
        let ghost sv = strings_view(out@);
        let x = chars_of(v[i].as_str());
        assert(vv.take(i + 1).drop_last() =~= vv.take(i as int));
        assert(vv.take(i + 1).last() == x@);
        proof { lemma_str_pos(sv, x@, 0); }
        let mut j: usize = 0;
        while j < out.len() && !key_less_exec(&x, &chars_of(out[j].as_str()))
            invariant
                j <= out.len(),
                sv == strings_view(out@),
                str_pos(sv, x@, j as int) == str_pos(sv, x@, 0),
            decreases out.len() - j,
        {
            j = j + 1;
        }
        out.insert(j, string_of(&x));
        assert(strings_view(out@) =~= sv.insert(j as int, x@));
        i = i + 1;
    }
    assert(vv.take(v.len() as int) =~= vv);
    out
}

/// The UTF-8 length of `s` (`str::len`).
pub fn utf8_len_exec(s: &Vec<char>) -> (r: u128)
    ensures
        r == utf8_len(s@),
        r <= 4 * s.len(),
{
    let mut n: u128 = 0;
    let mut i: usize = 0;
    while i < s.len()
        invariant
            i <= s.len(),
            n == utf8_len(s@.subrange(0, i as int)),
            n <= 4 * i,
        decreases s.len() - i,
    {
        let c = s[i];
        let w: u128 = if (c as u32) < 0x80 {
            1
        } else if (c as u32) < 0x800 {
            2
        } else if (c as u32) < 0x10000 {
            3
        } else {
            4
        };
        assert(s@.subrange(0, i + 1).drop_last() =~= s@.subrange(0, i as int));
        assert(n + w <= 4 * (i + 1)) by (nonlinear_arith)
            requires n <= 4 * i, w <= 4;
        n = n + w;
        i = i + 1;
    }
    assert(s@.subrange(0, s.len() as int) =~= s@);
    n
}

/// `parts` joined with `sep`.
pub open spec fn join_with(parts: Seq<Seq<char>>, sep: Seq<char>) -> Seq<char>
    decreases parts.len(),
{
    if parts.len() == 0 {
        Seq::empty()
    } else if parts.len() == 1 {
        parts[0]
    } else {
        join_with(parts.drop_last(), sep) + sep + parts.last()
    }
}

pub fn join_exec(parts: &Vec<Vec<char>>, sep: &str) -> (r: Vec<char>)
    ensures
        r@ == join_with(views(parts@), sep@),
{
    let ghost pv = views(parts@);
    let mut out: Vec<char> = Vec::new();
    let mut i: usize = 0;
    while i < parts.len()
        invariant
            i <= parts.len(),
            pv == views(parts@),
            out@ == join_with(pv.take(i as int), sep@),
        decreases parts.len() - i,
    {
        assert(pv.take(i + 1).drop_last() =~= pv.take(i as int));
        assert(pv.take(i + 1).last() == parts@[i as int]@);
        if i == 0 {
            assert(pv.take(1).len() == 1);
            out = parts[0].clone();
        } else {
            out = concat(&concat(&out, &chars_of(sep)), &parts[i]);
        }
        i = i + 1;
    }
    assert(pv.take(parts.len() as int) =~= pv);
    out
}

// ---------------------------------------------------------------------
// The order of texts is a strict total order
// ---------------------------------------------------------------------

pub proof fn lemma_key_less_irreflexive(a: Seq<char>)
    ensures
        !key_less(a, a),
    decreases a.len(),
{
    if a.len() > 0 {
        lemma_key_less_irreflexive(a.drop_first());
    }
}

pub proof fn lemma_key_less_asymmetric(a: Seq<char>, b: Seq<char>)
    ensures
        key_less(a, b) ==> !key_less(b, a),
    decreases a.len(),
{
    if a.len() > 0 && b.len() > 0 && a[0] == b[0] {
        lemma_key_less_asymmetric(a.drop_first(), b.drop_first());
    }
}

pub proof fn lemma_key_less_transitive(a: Seq<char>, b: Seq<char>, c: Seq<char>)
    ensures
        key_less(a, b) && key_less(b, c) ==> key_less(a, c),
    decreases a.len(),
{
    if a.len() > 0 && b.len() > 0 && c.len() > 0 && a[0] == b[0] && b[0] == c[0] {
        lemma_key_less_transitive(a.drop_first(), b.drop_first(), c.drop_first());
    }
}

pub proof fn lemma_key_less_total(a: Seq<char>, b: Seq<char>)
    ensures
        !key_less(a, b) && !key_less(b, a) ==> a == b,
    decreases a.len(),
{
    if a.len() > 0 && b.len() > 0 && a[0] == b[0] {
        lemma_key_less_total(a.drop_first(), b.drop_first());
        if a.drop_first() == b.drop_first() {
            assert(a =~= seq![a[0]] + a.drop_first());
            assert(b =~= seq![b[0]] + b.drop_first());
        }
    }
    if a.len() == 0 && b.len() == 0 {
        assert(a =~= b);
    }
}

/// The texts are in ascending order.
pub open spec fn strs_sorted(s: Seq<Seq<char>>) -> bool {
    forall|i: int, j: int| 0 <= i < j < s.len() ==> !key_less(s[j], s[i])
}

proof fn lemma_str_pos_bounds(t: Seq<Seq<char>>, x: Seq<char>, j: int)
    requires
        0 <= j <= t.len(),
    ensures
        forall|k: int| j <= k < str_pos(t, x, j) ==> !key_less(x, t[k]),
        str_pos(t, x, j) < t.len() ==> key_less(x, t[str_pos(t, x, j)]),
    decreases t.len() - j,
{
    if j < t.len() && !key_less(x, t[j]) {
        lemma_str_pos_bounds(t, x, j + 1);
    }
}

/// Sorting texts puts them in ascending order and keeps each as often as
/// it occurs.
pub proof fn law_sort_strs(s: Seq<Seq<char>>)
    ensures
        strs_sorted(sort_strs(s)),
        sort_strs(s).to_multiset() == s.to_multiset(),
    decreases s.len(),
{
    broadcast use vstd::seq_lib::to_multiset_insert, vstd::seq_lib::to_multiset_build;
    if s.len() > 0 {
        let t = sort_strs(s.drop_last());
        let x = s.last();
        law_sort_strs(s.drop_last());
        lemma_str_pos(t, x, 0);
        lemma_str_pos_bounds(t, x, 0);
        let p = str_pos(t, x, 0);
        let r = t.insert(p, x);
        assert(strs_sorted(r)) by {
            assert forall|i: int, j: int| 0 <= i < j < r.len() implies !key_less(r[j], r[i]) by {
                if j < p {
                    assert(r[i] == t[i] && r[j] == t[j]);
                } else if j == p {
                    assert(r[i] == t[i] && r[j] == x);
                } else if i < p {
                    assert(r[i] == t[i] && r[j] == t[j - 1]);
                } else if i == p {
                    assert(r[i] == x && r[j] == t[j - 1]);
                    if key_less(t[j - 1], x) {
                        if j - 1 > p {
                            assert(!key_less(t[j - 1], t[p]));
                        }
                        lemma_key_less_transitive(t[j - 1], x, t[p]);
                        lemma_key_less_irreflexive(t[p]);
                    }
                } else {
                    assert(r[i] == t[i - 1] && r[j] == t[j - 1]);
                }
            }
        }
        assert(s == s.drop_last().push(x));
        assert(r.to_multiset() == t.to_multiset().insert(x));
        assert(s.drop_last().push(x).to_multiset() == s.drop_last().to_multiset().insert(x));
    } else {
        assert(s =~= Seq::<Seq<char>>::empty());
        assert(sort_strs(s) =~= Seq::<Seq<char>>::empty());
    }
}

} // verus!

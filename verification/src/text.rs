//! Character-level text utilities shared by every parser of the library.
//!
//! Strings are handled as sequences of Unicode scalar values: `s@` for a
//! `&str` or `String`, and `v@` for a `Vec<char>`.  The spec functions here
//! describe the standard-library behaviour the parsers rely on (trimming,
//! splitting, integer parsing), and the exec functions implement them.
use vstd::prelude::*;

verus! {

// ---------------------------------------------------------------------------
// Character classes
// ---------------------------------------------------------------------------
/// Unicode `White_Space`, as `char::is_whitespace` and `str::trim` use it.
pub open spec fn is_ws(c: char) -> bool {
    let u = c as u32;
    u == 0x20 || (0x09 <= u && u <= 0x0d) || u == 0x85 || u == 0xa0 || u == 0x1680 || (0x2000
        <= u && u <= 0x200a) || u == 0x2028 || u == 0x2029 || u == 0x202f || u == 0x205f || u
        == 0x3000
}

/// ASCII whitespace as `u8::is_ascii_whitespace` defines it.
pub open spec fn is_ascii_ws(c: char) -> bool {
    c == ' ' || c == '\t' || c == '\n' || c == '\x0C' || c == '\r'
}

pub open spec fn is_digit(c: char) -> bool {
    '0' <= c && c <= '9'
}

pub open spec fn is_lower_alpha(c: char) -> bool {
    'a' <= c && c <= 'z'
}

pub open spec fn is_upper_alpha(c: char) -> bool {
    'A' <= c && c <= 'Z'
}

pub open spec fn is_alpha(c: char) -> bool {
    is_lower_alpha(c) || is_upper_alpha(c)
}

pub open spec fn is_alnum(c: char) -> bool {
    is_alpha(c) || is_digit(c)
}

pub open spec fn is_hex_digit(c: char) -> bool {
    is_digit(c) || ('a' <= c && c <= 'f') || ('A' <= c && c <= 'F')
}

pub open spec fn digit_value(c: char) -> nat {
    ((c as u32) - ('0' as u32)) as nat
}

pub open spec fn hex_value(c: char) -> nat {
    if is_digit(c) {
        digit_value(c)
    } else if 'a' <= c && c <= 'f' {
        ((c as u32) - ('a' as u32) + 10) as nat
    } else {
        ((c as u32) - ('A' as u32) + 10) as nat
    }
}

/// ASCII lower-casing of one character (`char::to_ascii_lowercase`).
pub open spec fn lower(c: char) -> char {
    if is_upper_alpha(c) {
        ((c as u32) + 32) as char
    } else {
        c
    }
}

/// ASCII lower-casing of a whole sequence (`str::to_ascii_lowercase`).
pub open spec fn lower_seq(s: Seq<char>) -> Seq<char> {
    s.map_values(|c: char| lower(c))
}

pub fn char_is_ws(c: char) -> (r: bool)
    ensures
        r == is_ws(c),
{
    let u = c as u32;
    u == 0x20 || (0x09 <= u && u <= 0x0d) || u == 0x85 || u == 0xa0 || u == 0x1680 || (0x2000
        <= u && u <= 0x200a) || u == 0x2028 || u == 0x2029 || u == 0x202f || u == 0x205f || u
        == 0x3000
}

pub fn char_is_ascii_ws(c: char) -> (r: bool)
    ensures
        r == is_ascii_ws(c),
{
    c == ' ' || c == '\t' || c == '\n' || c == '\x0C' || c == '\r'
}

pub fn char_is_digit(c: char) -> (r: bool)
    ensures
        r == is_digit(c),
{
    '0' <= c && c <= '9'
}

pub fn char_is_hex_digit(c: char) -> (r: bool)
    ensures
        r == is_hex_digit(c),
{
    ('0' <= c && c <= '9') || ('a' <= c && c <= 'f') || ('A' <= c && c <= 'F')
}

pub fn char_is_alnum(c: char) -> (r: bool)
    ensures
        r == is_alnum(c),
{
    ('a' <= c && c <= 'z') || ('A' <= c && c <= 'Z') || ('0' <= c && c <= '9')
}

pub fn char_is_alpha(c: char) -> (r: bool)
    ensures
        r == is_alpha(c),
{
    ('a' <= c && c <= 'z') || ('A' <= c && c <= 'Z')
}

pub fn char_lower(c: char) -> (r: char)
    ensures
        r == lower(c),
{
    if 'A' <= c && c <= 'Z' {
        let u = (c as u32) + 32;
        assert(0x61 <= u <= 0x7a);
        // `u` is a lower-case ASCII letter, so the conversion is exact.
        let l = char_from_ascii(u);
        l
    } else {
        c
    }
}

/// Converts an ASCII code point to its character.
fn char_from_ascii(u: u32) -> (c: char)
    requires
        u < 0x80,
    ensures
        c == u as char,
{
    let b = u as u8;
    b as char
}

pub fn hex_digit_value(c: char) -> (r: u32)
    requires
        is_hex_digit(c),
    ensures
        r == hex_value(c),
        r < 16,
{
    if '0' <= c && c <= '9' {
        (c as u32) - ('0' as u32)
    } else if 'a' <= c && c <= 'f' {
        (c as u32) - ('a' as u32) + 10
    } else {
        (c as u32) - ('A' as u32) + 10
    }
}

// ---------------------------------------------------------------------------
// Conversions between `&str`, `String` and `Vec<char>`
// ---------------------------------------------------------------------------
/// Collects the characters of a string slice.
pub fn chars_of(s: &str) -> (v: Vec<char>)
    ensures
        v@ == s@,
{
    let mut v: Vec<char> = Vec::new();
    for c in it: s.chars()
        invariant
            v@ == it.seq().take(it.index() as int),
    {
        v.push(c);
    }
    v
}

/// `String::push`: appends one character.
#[verifier::external_body]
pub(crate) fn push_char(s: &mut String, c: char)
    ensures
        final(s)@ == old(s)@.push(c),
{
    s.push(c);
}

/// Builds a string from characters.
pub fn string_of(v: &[char]) -> (s: String)
    ensures
        s@ == v@,
{
    let mut s = String::new();
    let mut i: usize = 0;
    while i < v.len()
        invariant
            i <= v.len(),
            s@ == v@.take(i as int),
        decreases v.len() - i,
    {
        push_char(&mut s, v[i]);
        assert(v@.take(i + 1) == v@.take(i as int).push(v@[i as int]));
        i += 1;
    }
    assert(v@.take(v.len() as int) == v@);
    s
}

/// Copies `s[lo..hi]`.
pub fn slice_chars(s: &[char], lo: usize, hi: usize) -> (r: Vec<char>)
    requires
        lo <= hi <= s@.len(),
    ensures
        r@ == s@.subrange(lo as int, hi as int),
{
    let mut r: Vec<char> = Vec::new();
    let mut i = lo;
    while i < hi
        invariant
            lo <= i <= hi <= s@.len(),
            r@ == s@.subrange(lo as int, i as int),
        decreases hi - i,
    {
        r.push(s[i]);
        assert(s@.subrange(lo as int, i + 1) == s@.subrange(lo as int, i as int).push(s@[i as int]));
        i += 1;
    }
    r
}

/// Appends all characters of `t` to `v`.
pub fn append_chars(v: &mut Vec<char>, t: &[char])
    ensures
        final(v)@ == old(v)@ + t@,
{
    let mut i: usize = 0;
    while i < t.len()
        invariant
            i <= t.len(),
            v@ == old(v)@ + t@.take(i as int),
        decreases t.len() - i,
    {
        v.push(t[i]);
        assert(t@.take(i + 1) == t@.take(i as int).push(t@[i as int]));
        i += 1;
    }
    assert(t@.take(t.len() as int) == t@);
}

/// Appends all characters of a string slice to `v`.
pub fn append_str(v: &mut Vec<char>, t: &str)
    ensures
        final(v)@ == old(v)@ + t@,
{
    let c = chars_of(t);
    append_chars(v, &c);
}

/// Sequence equality of two character slices.
pub fn chars_eq(a: &[char], b: &[char]) -> (r: bool)
    ensures
        r == (a@ == b@),
{
    if a.len() != b.len() {
        return false;
    }
    let mut i: usize = 0;
    while i < a.len()
        invariant
            a@.len() == b@.len(),
            i <= a.len(),
            forall|j: int| 0 <= j < i ==> a@[j] == b@[j],
        decreases a.len() - i,
    {
        if a[i] != b[i] {
            return false;
        }
        i += 1;
    }
    assert(a@ =~= b@);
    true
}

/// Whether the characters equal a string slice.
pub fn chars_eq_str(a: &[char], b: &str) -> (r: bool)
    ensures
        r == (a@ == b@),
{
    let bc = chars_of(b);
    chars_eq(a, &bc)
}

/// Whether `s` starts with `p`.
pub fn starts_with(s: &[char], p: &[char]) -> (r: bool)
    ensures
        r == (p@.len() <= s@.len() && s@.take(p@.len() as int) == p@),
{
    if p.len() > s.len() {
        return false;
    }
    let mut i: usize = 0;
    while i < p.len()
        invariant
            p@.len() <= s@.len(),
            i <= p.len(),
            forall|j: int| 0 <= j < i ==> s@[j] == p@[j],
        decreases p.len() - i,
    {
        if s[i] != p[i] {
            assert(s@.take(p@.len() as int)[i as int] != p@[i as int]);
            return false;
        }
        i += 1;
    }
    assert(s@.take(p@.len() as int) =~= p@);
    true
}

/// Whether `s` starts with the string slice `p`.
pub fn starts_with_str(s: &[char], p: &str) -> (r: bool)
    ensures
        r == (p@.len() <= s@.len() && s@.take(p@.len() as int) == p@),
{
    let pc = chars_of(p);
    starts_with(s, &pc)
}

/// Whether `s` ends with `p`.
pub fn ends_with(s: &[char], p: &[char]) -> (r: bool)
    ensures
        r == (p@.len() <= s@.len() && s@.skip(s@.len() - p@.len()) == p@),
{
    if p.len() > s.len() {
        return false;
    }
    let off = s.len() - p.len();
    let mut i: usize = 0;
    while i < p.len()
        invariant
            p@.len() <= s@.len(),
            off == s@.len() - p@.len(),
            off + p.len() == s.len(),
            i <= p.len(),
            forall|j: int| 0 <= j < i ==> s@[off + j] == p@[j],
        decreases p.len() - i,
    {
        if s[off + i] != p[i] {
            assert(s@.skip(off as int)[i as int] != p@[i as int]);
            return false;
        }
        i += 1;
    }
    assert(s@.skip(off as int) =~= p@);
    true
}

/// Whether `s` ends with the string slice `p`.
pub fn ends_with_str(s: &[char], p: &str) -> (r: bool)
    ensures
        r == (p@.len() <= s@.len() && s@.skip(s@.len() - p@.len()) == p@),
{
    let pc = chars_of(p);
    ends_with(s, &pc)
}

/// `str::contains` for a character pattern.
pub open spec fn contains_at(s: Seq<char>, p: Seq<char>, i: int) -> bool {
    0 <= i && i + p.len() <= s.len() && forall|k: int| 0 <= k < p.len() ==> s[i + k] == p[k]
}

pub open spec fn contains_seq(s: Seq<char>, p: Seq<char>) -> bool {
    exists|i: int| contains_at(s, p, i)
}

/// Whether `p` occurs in `s` at position `i`.
fn occurs_at(s: &[char], p: &[char], i: usize) -> (r: bool)
    requires
        i + p@.len() <= s@.len(),
    ensures
        r == contains_at(s@, p@, i as int),
{
    let mut j: usize = 0;
    while j < p.len()
        invariant
            i + p@.len() <= s@.len(),
            i + p.len() <= s.len(),
            j <= p.len(),
            forall|k: int| 0 <= k < j ==> s@[i + k] == p@[k],
        decreases p.len() - j,
    {
        if s[i + j] != p[j] {
            return false;
        }
        j += 1;
    }
    true
}

/// Whether `s` contains `p`.
pub fn contains(s: &[char], p: &[char]) -> (r: bool)
    ensures
        r == contains_seq(s@, p@),
{
    if p.len() > s.len() {
        return false;
    }
    let last = s.len() - p.len();
    let mut i: usize = 0;
    loop
        invariant_except_break
            p@.len() <= s@.len(),
            last == s@.len() - p@.len(),
            i <= last,
            forall|k: int| 0 <= k < i ==> !contains_at(s@, p@, k),
        ensures
            forall|k: int| 0 <= k <= last ==> !contains_at(s@, p@, k),
        decreases last - i,
    {
        if occurs_at(s, p, i) {
            return true;
        }
        if i == last {
            break;
        }
        i += 1;
    }
    false
}

/// Whether `s` contains the string slice `p`.
pub fn contains_str(s: &[char], p: &str) -> (r: bool)
    ensures
        r == contains_seq(s@, p@),
{
    let pc = chars_of(p);
    contains(s, &pc)
}

/// ASCII lower-casing.
pub fn to_lower(s: &[char]) -> (r: Vec<char>)
    ensures
        r@ == lower_seq(s@),
{
    let mut r: Vec<char> = Vec::new();
    let mut i: usize = 0;
    while i < s.len()
        invariant
            i <= s.len(),
            r@ == lower_seq(s@.take(i as int)),
        decreases s.len() - i,
    {
        let c = char_lower(s[i]);
        r.push(c);
        assert(lower_seq(s@.take(i + 1)) =~= lower_seq(s@.take(i as int)).push(lower(s@[i as int])));
        i += 1;
    }
    assert(s@.take(s.len() as int) == s@);
    r
}

// ---------------------------------------------------------------------------
// Searching
// ---------------------------------------------------------------------------
/// Index of the first occurrence of `c`.
pub open spec fn index_of(s: Seq<char>, c: char) -> Option<int>
    decreases s.len(),
{
    if s.len() == 0 {
        None
    } else if s[0] == c {
        Some(0)
    } else {
        match index_of(s.drop_first(), c) {
            Some(i) => Some(i + 1),
            None => None,
        }
    }
}

/// The first-occurrence characterization of `index_of`.
pub proof fn lemma_index_of(s: Seq<char>, c: char, i: int)
    requires
        0 <= i <= s.len(),
        forall|j: int| 0 <= j < i ==> s[j] != c,
        i < s.len() ==> s[i] == c,
    ensures
        index_of(s, c) == (if i < s.len() { Some(i) } else { None::<int> }),
    decreases s.len(),
{
    if s.len() > 0 && i > 0 {
        assert forall|j: int| 0 <= j < i - 1 implies s.drop_first()[j] != c by {
            assert(s.drop_first()[j] == s[j + 1]);
        }
        if i < s.len() {
            assert(s.drop_first()[i - 1] == s[i]);
        }
        lemma_index_of(s.drop_first(), c, i - 1);
    }
}

/// Bounds of `index_of`.
pub proof fn lemma_index_of_bounds(s: Seq<char>, c: char)
    ensures
        index_of(s, c) matches Some(i) ==> 0 <= i < s.len() && s[i] == c && forall|j: int|
            0 <= j < i ==> s[j] != c,
        index_of(s, c) is None ==> forall|j: int| 0 <= j < s.len() ==> s[j] != c,
    decreases s.len(),
{
    if s.len() > 0 {
        lemma_index_of_bounds(s.drop_first(), c);
        assert forall|j: int| 1 <= j < s.len() implies s[j] == s.drop_first()[j - 1] by {}
    }
}

/// Index of the last occurrence of `c`.
pub open spec fn last_index_of(s: Seq<char>, c: char) -> Option<int>
    decreases s.len(),
{
    if s.len() == 0 {
        None
    } else if s.last() == c {
        Some(s.len() - 1)
    } else {
        last_index_of(s.drop_last(), c)
    }
}

pub proof fn lemma_last_index_of(s: Seq<char>, c: char, i: int)
    requires
        -1 <= i < s.len(),
        forall|j: int| i < j < s.len() ==> s[j] != c,
        i >= 0 ==> s[i] == c,
    ensures
        last_index_of(s, c) == (if i >= 0 { Some(i) } else { None::<int> }),
    decreases s.len(),
{
    if s.len() > 0 && i < s.len() - 1 {
        assert(s.last() != c);
        assert forall|j: int| i < j < s.len() - 1 implies s.drop_last()[j] != c by {
            assert(s.drop_last()[j] == s[j]);
        }
        if i >= 0 {
            assert(s.drop_last()[i] == s[i]);
        }
        lemma_last_index_of(s.drop_last(), c, i);
    }
}

/// `str::find` for a character.
pub fn find_char(s: &[char], c: char) -> (r: Option<usize>)
    ensures
        r matches Some(i) ==> i < s.len() && index_of(s@, c) == Some(i as int),
        r is None ==> index_of(s@, c) is None,
{
    let mut i: usize = 0;
    while i < s.len()
        invariant
            i <= s.len(),
            forall|j: int| 0 <= j < i ==> s@[j] != c,
        decreases s.len() - i,
    {
        if s[i] == c {
            proof {
                lemma_index_of(s@, c, i as int);
            }
            return Some(i);
        }
        i += 1;
    }
    proof {
        lemma_index_of(s@, c, i as int);
    }
    None
}

/// `str::rfind` for a character.
pub fn rfind_char(s: &[char], c: char) -> (r: Option<usize>)
    ensures
        r matches Some(i) ==> i < s.len() && last_index_of(s@, c) == Some(i as int),
        r is None ==> last_index_of(s@, c) is None,
{
    let mut i: usize = s.len();
    while i > 0
        invariant
            i <= s.len(),
            forall|j: int| i <= j < s.len() ==> s@[j] != c,
        decreases i,
    {
        if s[i - 1] == c {
            proof {
                lemma_last_index_of(s@, c, i - 1);
            }
            return Some(i - 1);
        }
        i -= 1;
    }
    proof {
        lemma_last_index_of(s@, c, -1);
    }
    None
}

// ---------------------------------------------------------------------------
// Trimming
// ---------------------------------------------------------------------------
/// Number of leading whitespace characters.
pub open spec fn lead_ws(s: Seq<char>) -> nat
    decreases s.len(),
{
    if s.len() > 0 && is_ws(s[0]) {
        1 + lead_ws(s.drop_first())
    } else {
        0
    }
}

/// Number of trailing whitespace characters.
pub open spec fn trail_ws(s: Seq<char>) -> nat
    decreases s.len(),
{
    if s.len() > 0 && is_ws(s.last()) {
        1 + trail_ws(s.drop_last())
    } else {
        0
    }
}

/// `str::trim_start`.
pub open spec fn trim_start(s: Seq<char>) -> Seq<char> {
    s.skip(lead_ws(s) as int)
}

/// `str::trim_end`.
pub open spec fn trim_end(s: Seq<char>) -> Seq<char> {
    s.take(s.len() - trail_ws(s))
}

/// `str::trim`.
pub open spec fn trim(s: Seq<char>) -> Seq<char> {
    trim_end(trim_start(s))
}

pub proof fn lemma_lead_ws_bound(s: Seq<char>)
    ensures
        lead_ws(s) <= s.len(),
        lead_ws(s) < s.len() ==> !is_ws(s[lead_ws(s) as int]),
        forall|j: int| 0 <= j < lead_ws(s) ==> is_ws(s[j]),
    decreases s.len(),
{
    if s.len() > 0 && is_ws(s[0]) {
        lemma_lead_ws_bound(s.drop_first());
        assert forall|j: int| 0 <= j < lead_ws(s) implies is_ws(s[j]) by {
            if j > 0 {
                assert(s[j] == s.drop_first()[j - 1]);
            }
        }
    }
}

pub proof fn lemma_trail_ws_bound(s: Seq<char>)
    ensures
        trail_ws(s) <= s.len(),
        trail_ws(s) < s.len() ==> !is_ws(s[s.len() - trail_ws(s) - 1]),
        forall|j: int| s.len() - trail_ws(s) <= j < s.len() ==> is_ws(s[j]),
    decreases s.len(),
{
    if s.len() > 0 && is_ws(s.last()) {
        lemma_trail_ws_bound(s.drop_last());
        assert forall|j: int| s.len() - trail_ws(s) <= j < s.len() implies is_ws(s[j]) by {
            if j < s.len() - 1 {
                assert(s[j] == s.drop_last()[j]);
            }
        }
    }
}

/// Characterizes `lead_ws` by a whitespace prefix followed by a non-space.
pub proof fn lemma_lead_ws_is(s: Seq<char>, k: int)
    requires
        0 <= k <= s.len(),
        forall|j: int| 0 <= j < k ==> is_ws(s[j]),
        k < s.len() ==> !is_ws(s[k]),
    ensures
        lead_ws(s) == k,
    decreases s.len(),
{
    if k > 0 {
        assert forall|j: int| 0 <= j < k - 1 implies is_ws(s.drop_first()[j]) by {
            assert(s.drop_first()[j] == s[j + 1]);
        }
        if k - 1 < s.drop_first().len() {
            assert(s.drop_first()[k - 1] == s[k]);
        }
        lemma_lead_ws_is(s.drop_first(), k - 1);
    }
}

/// Characterizes `trail_ws` by a whitespace suffix preceded by a non-space.
pub proof fn lemma_trail_ws_is(s: Seq<char>, k: int)
    requires
        0 <= k <= s.len(),
        forall|j: int| s.len() - k <= j < s.len() ==> is_ws(s[j]),
        k < s.len() ==> !is_ws(s[s.len() - k - 1]),
    ensures
        trail_ws(s) == k,
    decreases s.len(),
{
    if k > 0 {
        let t = s.drop_last();
        assert forall|j: int| t.len() - (k - 1) <= j < t.len() implies is_ws(t[j]) by {
            assert(t[j] == s[j]);
        }
        if k - 1 < t.len() {
            assert(t[t.len() - (k - 1) - 1] == s[s.len() - k - 1]);
        }
        lemma_trail_ws_is(t, k - 1);
    }
}

/// Bounds of the trimmed part of `s`.
pub fn trim_bounds(s: &[char]) -> (r: (usize, usize))
    ensures
        r.0 <= r.1 <= s@.len(),
        s@.subrange(r.0 as int, r.1 as int) == trim(s@),
        r.0 == lead_ws(s@),
{
    let mut lo: usize = 0;
    while lo < s.len() && char_is_ws(s[lo])
        invariant
            lo <= s.len(),
            forall|j: int| 0 <= j < lo ==> is_ws(s@[j]),
        decreases s.len() - lo,
    {
        lo += 1;
    }
    proof {
        lemma_lead_ws_is(s@, lo as int);
    }
    let mut hi: usize = s.len();
    while hi > lo && char_is_ws(s[hi - 1])
        invariant
            lo <= hi <= s.len(),
            forall|j: int| hi <= j < s.len() ==> is_ws(s@[j]),
        decreases hi,
    {
        hi -= 1;
    }
    proof {
        let t = s@.skip(lo as int);
        assert forall|j: int| t.len() - (s.len() - hi) <= j < t.len() implies is_ws(t[j]) by {
            assert(t[j] == s@[lo + j]);
        }
        if s.len() - hi < t.len() {
            assert(t[t.len() - (s.len() - hi) - 1] == s@[hi - 1]);
        }
        lemma_trail_ws_is(t, s.len() - hi);
        assert(trim(s@) =~= s@.subrange(lo as int, hi as int));
    }
    (lo, hi)
}

/// `str::trim`, returning owned characters.
pub fn trim_chars(s: &[char]) -> (r: Vec<char>)
    ensures
        r@ == trim(s@),
{
    let (lo, hi) = trim_bounds(s);
    slice_chars(s, lo, hi)
}

/// `str::trim_start`, returning owned characters.
pub fn trim_start_chars(s: &[char]) -> (r: Vec<char>)
    ensures
        r@ == trim_start(s@),
{
    let (lo, _hi) = trim_bounds(s);
    proof {
        lemma_lead_ws_bound(s@);
    }
    slice_chars(s, lo, s.len())
}

/// `str::trim_end`, returning owned characters.
pub fn trim_end_chars(s: &[char]) -> (r: Vec<char>)
    ensures
        r@ == trim_end(s@),
{
    let mut hi: usize = s.len();
    while hi > 0 && char_is_ws(s[hi - 1])
        invariant
            hi <= s.len(),
            forall|j: int| hi <= j < s.len() ==> is_ws(s@[j]),
        decreases hi,
    {
        hi -= 1;
    }
    proof {
        lemma_trail_ws_is(s@, s.len() - hi);
    }
    slice_chars(s, 0, hi)
}

// ---------------------------------------------------------------------------
// Integer parsing (`str::parse` and `from_str_radix`)
// ---------------------------------------------------------------------------
/// Value of a string of digits in the given radix.
pub open spec fn digits_value(s: Seq<char>, radix: nat) -> nat
    decreases s.len(),
{
    if s.len() == 0 {
        0
    } else {
        digits_value(s.drop_last(), radix) * radix + hex_value(s.last())
    }
}

pub open spec fn is_radix_digit(c: char, radix: nat) -> bool {
    if radix == 10 {
        is_digit(c)
    } else {
        is_hex_digit(c)
    }
}

pub open spec fn all_radix_digits(s: Seq<char>, radix: nat) -> bool {
    forall|i: int| 0 <= i < s.len() ==> is_radix_digit(s[i], radix)
}

/// The digits after an optional leading `+`, as unsigned `from_str_radix` reads them.
pub open spec fn unsigned_digits(s: Seq<char>) -> Seq<char> {
    if s.len() > 0 && s[0] == '+' {
        s.drop_first()
    } else {
        s
    }
}

/// Unsigned integer parsing in radix 10 or 16 with an upper bound.
pub open spec fn parse_unsigned(s: Seq<char>, radix: nat, max: nat) -> Option<nat> {
    let d = unsigned_digits(s);
    if d.len() > 0 && all_radix_digits(d, radix) && digits_value(d, radix) <= max {
        Some(digits_value(d, radix))
    } else {
        None
    }
}

proof fn lemma_digits_value_push(s: Seq<char>, c: char, radix: nat)
    ensures
        digits_value(s.push(c), radix) == digits_value(s, radix) * radix + hex_value(c),
{
    assert(s.push(c).drop_last() =~= s);
}

proof fn lemma_digits_value_monotone(s: Seq<char>, i: int, radix: nat)
    requires
        0 <= i <= s.len(),
        radix >= 2,
    ensures
        digits_value(s.take(i), radix) <= digits_value(s, radix),
    decreases s.len() - i,
{
    if i < s.len() {
        lemma_digits_value_monotone(s, i + 1, radix);
        assert(s.take(i + 1).drop_last() =~= s.take(i));
        let a = digits_value(s.take(i), radix);
        assert(a <= a * radix) by (nonlinear_arith)
            requires
                radix >= 2,
        ;
    } else {
        assert(s.take(i) =~= s);
    }
}

/// Parses `s` as an unsigned integer in radix 10 or 16 no larger than `max`.
pub fn parse_unsigned_chars(s: &[char], radix: u32, max: u64) -> (r: Option<u64>)
    requires
        radix == 10 || radix == 16,
    ensures
        r matches Some(v) ==> parse_unsigned(s@, radix as nat, max as nat) == Some(v as nat),
        r is None ==> parse_unsigned(s@, radix as nat, max as nat) is None,
{
    let start: usize = if s.len() > 0 && s[0] == '+' { 1 } else { 0 };
    let ghost d = unsigned_digits(s@);
    assert(d =~= s@.skip(start as int));
    if start >= s.len() {
        return None;
    }
    let mut value: u64 = 0;
    let mut i = start;
    let mut overflow = false;
    while i < s.len()
        invariant
            start <= i <= s.len(),
            d == s@.skip(start as int),
            d == unsigned_digits(s@),
            radix == 10 || radix == 16,
            forall|j: int| start <= j < i ==> is_radix_digit(s@[j], radix as nat),
            !overflow ==> value == digits_value(d.take(i - start), radix as nat),
            !overflow ==> value <= max,
            overflow ==> digits_value(d.take(i - start), radix as nat) > max,
        decreases s.len() - i,
    {
        let c = s[i];
        let ok = if radix == 10 { char_is_digit(c) } else { char_is_hex_digit(c) };
        if !ok {
            proof {
                assert(!is_radix_digit(d[i - start], radix as nat));
            }
            return None;
        }
        let dv = hex_digit_value(c) as u64;
        proof {
            assert(d.take(i - start + 1) =~= d.take(i - start).push(c));
            lemma_digits_value_push(d.take(i - start), c, radix as nat);
        }
        if !overflow {
            if dv > max || value > (max - dv) / (radix as u64) {
                overflow = true;
                proof {
                    let v = value as int;
                    let rr = radix as int;
                    if dv <= max {
                        assert(v * rr + dv > max) by (nonlinear_arith)
                            requires
                                v > (max - dv) / rr,
                                rr >= 10,
                                dv <= max,
                        ;
                    } else {
                        assert(v * rr >= 0) by (nonlinear_arith)
                            requires
                                v >= 0,
                                rr >= 10,
                        ;
                    }
                }
            } else {
                proof {
                    let v = value as int;
                    let rr = radix as int;
                    assert(v * rr + dv <= max) by (nonlinear_arith)
                        requires
                            v <= (max - dv) / rr,
                            rr >= 10,
                            dv <= max,
                    ;
                }
                value = value * (radix as u64) + dv;
            }
        } else {
            proof {
                let a = digits_value(d.take(i - start), radix as nat) as int;
                let rr = radix as int;
                assert(a * rr + dv > max) by (nonlinear_arith)
                    requires
                        a > max,
                        rr >= 10,
                        dv >= 0,
                ;
            }
        }
        i += 1;
    }
    assert(d.take(i - start) =~= d);
    if overflow {
        None
    } else {
        Some(value)
    }
}

/// `str::parse::<u64>`.
pub fn parse_u64(s: &[char]) -> (r: Option<u64>)
    ensures
        r matches Some(v) ==> parse_unsigned(s@, 10, u64::MAX as nat) == Some(v as nat),
        r is None ==> parse_unsigned(s@, 10, u64::MAX as nat) is None,
{
    parse_unsigned_chars(s, 10, u64::MAX)
}

// ---------------------------------------------------------------------------
// Splitting
// ---------------------------------------------------------------------------
/// Views of a sequence of character vectors.
pub open spec fn views(v: Seq<Vec<char>>) -> Seq<Seq<char>> {
    v.map_values(|x: Vec<char>| x@)
}

/// First occurrence of a non-empty pattern.
pub open spec fn index_of_seq(s: Seq<char>, p: Seq<char>) -> Option<int>
    decreases s.len(),
{
    if s.len() < p.len() {
        None
    } else if contains_at(s, p, 0) {
        Some(0)
    } else if s.len() == 0 {
        None
    } else {
        match index_of_seq(s.drop_first(), p) {
            Some(i) => Some(i + 1),
            None => None,
        }
    }
}

pub proof fn lemma_index_of_seq(s: Seq<char>, p: Seq<char>, i: int)
    requires
        0 <= i,
        forall|j: int| 0 <= j < i ==> !contains_at(s, p, j),
        i + p.len() <= s.len() ==> contains_at(s, p, i),
        i + p.len() > s.len() ==> forall|j: int| j >= i ==> !contains_at(s, p, j),
    ensures
        index_of_seq(s, p) == (if i + p.len() <= s.len() { Some(i) } else { None::<int> }),
    decreases s.len(),
{
    if s.len() >= p.len() {
        if i > 0 {
            assert(!contains_at(s, p, 0));
            let t = s.drop_first();
            assert forall|j: int| 0 <= j < i - 1 implies !contains_at(t, p, j) by {
                assert(!contains_at(s, p, j + 1));
                if contains_at(t, p, j) {
                    assert forall|k: int| 0 <= k < p.len() implies s[j + 1 + k] == p[k] by {
                        assert(t[j + k] == s[j + 1 + k]);
                    }
                }
            }
            if i - 1 + p.len() <= t.len() {
                assert forall|k: int| 0 <= k < p.len() implies t[i - 1 + k] == p[k] by {
                    assert(t[i - 1 + k] == s[i + k]);
                }
            } else {
                assert forall|j: int| j >= i - 1 implies !contains_at(t, p, j) by {
                    if contains_at(t, p, j) {
                        assert forall|k: int| 0 <= k < p.len() implies s[j + 1 + k] == p[k] by {
                            assert(t[j + k] == s[j + 1 + k]);
                        }
                        assert(contains_at(s, p, j + 1));
                    }
                }
            }
            lemma_index_of_seq(t, p, i - 1);
        }
    }
}

pub proof fn lemma_index_of_seq_bounds(s: Seq<char>, p: Seq<char>)
    ensures
        index_of_seq(s, p) matches Some(i) ==> 0 <= i && i + p.len() <= s.len(),
    decreases s.len(),
{
    if s.len() >= p.len() && !contains_at(s, p, 0) && s.len() > 0 {
        lemma_index_of_seq_bounds(s.drop_first(), p);
    }
}

/// `str::find` for a character, starting at `from`.
pub fn find_char_from(s: &[char], from: usize, c: char) -> (r: Option<usize>)
    requires
        from <= s@.len(),
    ensures
        r matches Some(i) ==> from <= i < s.len() && index_of(s@.skip(from as int), c) == Some(
            i - from,
        ),
        r is None ==> index_of(s@.skip(from as int), c) is None,
{
    let ghost t = s@.skip(from as int);
    let mut i: usize = from;
    while i < s.len()
        invariant
            from <= i <= s.len(),
            t == s@.skip(from as int),
            forall|j: int| 0 <= j < i - from ==> t[j] != c,
        decreases s.len() - i,
    {
        if s[i] == c {
            proof {
                lemma_index_of(t, c, i - from);
            }
            return Some(i);
        }
        i += 1;
    }
    proof {
        lemma_index_of(t, c, i - from);
    }
    None
}

/// `str::find` for a non-empty pattern, starting at `from`.
pub fn find_seq_from(s: &[char], from: usize, p: &[char]) -> (r: Option<usize>)
    requires
        from <= s@.len(),
        p@.len() > 0,
    ensures
        r matches Some(i) ==> from <= i && i + p@.len() <= s.len() && index_of_seq(
            s@.skip(from as int),
            p@,
        ) == Some(i - from),
        r is None ==> index_of_seq(s@.skip(from as int), p@) is None,
{
    let ghost t = s@.skip(from as int);
    let mut i: usize = from;
    while i < s.len() && p.len() <= s.len() - i
        invariant
            from <= i <= s.len(),
            t == s@.skip(from as int),
            forall|j: int| 0 <= j < i - from ==> !contains_at(t, p@, j),
        decreases s.len() - i,
    {
        if occurs_at(s, p, i) {
            proof {
                assert forall|k: int| 0 <= k < p@.len() implies t[i - from + k] == p@[k] by {
                    assert(t[i - from + k] == s@[i + k]);
                }
                lemma_index_of_seq(t, p@, i - from);
            }
            return Some(i);
        }
        proof {
            if contains_at(t, p@, i - from) {
                assert forall|k: int| 0 <= k < p@.len() implies s@[i + k] == p@[k] by {
                    assert(t[i - from + k] == s@[i + k]);
                }
            }
        }
        i += 1;
    }
    proof {
        assert forall|j: int| j >= i - from implies !contains_at(t, p@, j) by {}
        lemma_index_of_seq(t, p@, i - from);
    }
    None
}

/// `str::split` on a character.
pub open spec fn split(s: Seq<char>, c: char) -> Seq<Seq<char>>
    decreases s.len(),
{
    match index_of(s, c) {
        Some(i) => if 0 <= i < s.len() {
            seq![s.take(i)] + split(s.skip(i + 1), c)
        } else {
            seq![s]
        },
        None => seq![s],
    }
}

/// `str::split` on a non-empty string pattern.
pub open spec fn split_seq(s: Seq<char>, p: Seq<char>) -> Seq<Seq<char>>
    decreases s.len(),
{
    match index_of_seq(s, p) {
        Some(i) => if p.len() > 0 && 0 <= i && i + p.len() <= s.len() {
            seq![s.take(i)] + split_seq(s.skip(i + p.len()), p)
        } else {
            seq![s]
        },
        None => seq![s],
    }
}

proof fn lemma_split_unfold(s: Seq<char>, c: char)
    ensures
        index_of(s, c) matches Some(i) ==> 0 <= i < s.len() && split(s, c) == seq![s.take(i)]
            + split(s.skip(i + 1), c),
        index_of(s, c) is None ==> split(s, c) == seq![s],
{
    lemma_index_of_bounds(s, c);
}

proof fn lemma_split_seq_unfold(s: Seq<char>, p: Seq<char>)
    requires
        p.len() > 0,
    ensures
        index_of_seq(s, p) matches Some(i) ==> 0 <= i && i + p.len() <= s.len() && split_seq(s, p)
            == seq![s.take(i)] + split_seq(s.skip(i + p.len()), p),
        index_of_seq(s, p) is None ==> split_seq(s, p) == seq![s],
{
    lemma_index_of_seq_bounds(s, p);
}

/// Splits `s` on `c`.
pub fn split_chars(s: &[char], c: char) -> (r: Vec<Vec<char>>)
    ensures
        views(r@) == split(s@, c),
{
    let mut r: Vec<Vec<char>> = Vec::new();
    let mut pos: usize = 0;
    assert(s@.skip(0) =~= s@);
    assert(views(r@) =~= Seq::<Seq<char>>::empty());
    loop
        invariant
            pos <= s@.len(),
            split(s@, c) == views(r@) + split(s@.skip(pos as int), c),
        decreases s@.len() - pos,
    {
        let ghost t = s@.skip(pos as int);
        proof {
            lemma_split_unfold(t, c);
        }
        match find_char_from(s, pos, c) {
            Some(i) => {
                let piece = slice_chars(s, pos, i);
                proof {
                    assert(t.take(i - pos) =~= piece@);
                    assert(t.skip(i - pos + 1) =~= s@.skip(i + 1));
                    assert(views(r@.push(piece)) =~= views(r@).push(piece@));
                }
                r.push(piece);
                pos = i + 1;
            },
            None => {
                let piece = slice_chars(s, pos, s.len());
                proof {
                    assert(t =~= piece@);
                    assert(views(r@.push(piece)) =~= views(r@).push(piece@));
                }
                r.push(piece);
                return r;
            },
        }
    }
}

/// Splits `s` on a non-empty pattern.
pub fn split_seq_chars(s: &[char], p: &[char]) -> (r: Vec<Vec<char>>)
    requires
        p@.len() > 0,
    ensures
        views(r@) == split_seq(s@, p@),
{
    let mut r: Vec<Vec<char>> = Vec::new();
    let mut pos: usize = 0;
    assert(s@.skip(0) =~= s@);
    assert(views(r@) =~= Seq::<Seq<char>>::empty());
    loop
        invariant
            pos <= s@.len(),
            p@.len() > 0,
            split_seq(s@, p@) == views(r@) + split_seq(s@.skip(pos as int), p@),
        decreases s@.len() - pos,
    {
        let ghost t = s@.skip(pos as int);
        proof {
            lemma_split_seq_unfold(t, p@);
        }
        match find_seq_from(s, pos, p) {
            Some(i) => {
                let piece = slice_chars(s, pos, i);
                proof {
                    assert(t.take(i - pos) =~= piece@);
                    assert(t.skip(i - pos + p@.len()) =~= s@.skip(i + p@.len()));
                    assert(views(r@.push(piece)) =~= views(r@).push(piece@));
                }
                r.push(piece);
                pos = i + p.len();
            },
            None => {
                let piece = slice_chars(s, pos, s.len());
                proof {
                    assert(t =~= piece@);
                    assert(views(r@.push(piece)) =~= views(r@).push(piece@));
                }
                r.push(piece);
                return r;
            },
        }
    }
}

/// Removes one trailing carriage return.
pub open spec fn strip_cr(s: Seq<char>) -> Seq<char> {
    if s.len() > 0 && s.last() == '\r' {
        s.drop_last()
    } else {
        s
    }
}

/// `str::lines`: pieces between `\n`, where a `\r` before the `\n` is
/// removed and an empty final piece is not a line.
pub open spec fn lines(s: Seq<char>) -> Seq<Seq<char>> {
    let parts = split(s, '\n');
    let n = parts.len();
    let terminated = parts.take(n - 1).map_values(|x: Seq<char>| strip_cr(x));
    if n > 0 && parts[n - 1].len() == 0 {
        terminated
    } else {
        terminated.push(parts[n - 1])
    }
}

pub proof fn lemma_split_nonempty(s: Seq<char>, c: char)
    ensures
        split(s, c).len() > 0,
    decreases s.len(),
{
    match index_of(s, c) {
        Some(i) => if 0 <= i < s.len() {
            lemma_split_nonempty(s.skip(i + 1), c);
        },
        None => {},
    }
}

/// `str::lines`.
pub fn lines_of(s: &[char]) -> (r: Vec<Vec<char>>)
    ensures
        views(r@) == lines(s@),
{
    let parts = split_chars(s, '\n');
    proof {
        lemma_split_nonempty(s@, '\n');
    }
    let n = parts.len();
    let ghost sp = split(s@, '\n');
    let mut r: Vec<Vec<char>> = Vec::new();
    let mut i: usize = 0;
    while i + 1 < n
        invariant
            n == parts@.len(),
            n > 0,
            views(parts@) == sp,
            sp == split(s@, '\n'),
            i < n,
            views(r@) == sp.take(i as int).map_values(|x: Seq<char>| strip_cr(x)),
        decreases n - i,
    {
        let part = &parts[i];
        let stripped = if part.len() > 0 && part[part.len() - 1] == '\r' {
            slice_chars(part, 0, part.len() - 1)
        } else {
            slice_chars(part, 0, part.len())
        };
        proof {
            assert(part@ == sp[i as int]);
            assert(stripped@ =~= strip_cr(sp[i as int]));
            assert(sp.take(i + 1).map_values(|x: Seq<char>| strip_cr(x)) =~= sp.take(
                i as int,
            ).map_values(|x: Seq<char>| strip_cr(x)).push(strip_cr(sp[i as int])));
            assert(views(r@.push(stripped)) =~= views(r@).push(stripped@));
        }
        r.push(stripped);
        i += 1;
    }
    let last = &parts[n - 1];
    proof {
        assert(last@ == sp[n - 1]);
    }
    proof {
        assert(i + 1 == n);
        let parts_spec = split(s@, '\n');
        assert(parts_spec == sp);
        assert(sp.len() == n);
        assert(views(r@) == sp.take(n - 1).map_values(|x: Seq<char>| strip_cr(x)));
    }
    if last.len() > 0 {
        let copy = slice_chars(last, 0, last.len());
        proof {
            assert(copy@ =~= last@);
            assert(views(r@.push(copy)) =~= views(r@).push(copy@));
        }
        r.push(copy);
        proof {
            assert(views(r@) =~= lines(s@));
        }
    } else {
        proof {
            assert(views(r@) =~= lines(s@));
        }
    }
    r
}

/// Index of the first whitespace character.
pub open spec fn index_of_ws(s: Seq<char>) -> Option<int>
    decreases s.len(),
{
    if s.len() == 0 {
        None
    } else if is_ws(s[0]) {
        Some(0)
    } else {
        match index_of_ws(s.drop_first()) {
            Some(i) => Some(i + 1),
            None => None,
        }
    }
}

pub proof fn lemma_index_of_ws(s: Seq<char>, i: int)
    requires
        0 <= i <= s.len(),
        forall|j: int| 0 <= j < i ==> !is_ws(s[j]),
        i < s.len() ==> is_ws(s[i]),
    ensures
        index_of_ws(s) == (if i < s.len() { Some(i) } else { None::<int> }),
    decreases s.len(),
{
    if s.len() > 0 && i > 0 {
        assert forall|j: int| 0 <= j < i - 1 implies !is_ws(s.drop_first()[j]) by {
            assert(s.drop_first()[j] == s[j + 1]);
        }
        if i < s.len() {
            assert(s.drop_first()[i - 1] == s[i]);
        }
        lemma_index_of_ws(s.drop_first(), i - 1);
    }
}

/// Finds the first whitespace character.
pub fn find_ws(s: &[char]) -> (r: Option<usize>)
    ensures
        r matches Some(i) ==> i < s.len() && index_of_ws(s@) == Some(i as int),
        r is None ==> index_of_ws(s@) is None,
{
    let mut i: usize = 0;
    while i < s.len()
        invariant
            i <= s.len(),
            forall|j: int| 0 <= j < i ==> !is_ws(s@[j]),
        decreases s.len() - i,
    {
        if char_is_ws(s[i]) {
            proof {
                lemma_index_of_ws(s@, i as int);
            }
            return Some(i);
        }
        i += 1;
    }
    proof {
        lemma_index_of_ws(s@, i as int);
    }
    None
}

/// The first item of `split_whitespace()`.
pub open spec fn first_word(s: Seq<char>) -> Option<Seq<char>> {
    let t = trim_start(s);
    if t.len() == 0 {
        None
    } else {
        match index_of_ws(t) {
            Some(i) => Some(t.take(i)),
            None => Some(t),
        }
    }
}

/// `split_whitespace().next()`.
pub fn first_word_chars(s: &[char]) -> (r: Option<Vec<char>>)
    ensures
        r matches Some(w) ==> first_word(s@) == Some(w@),
        r is None ==> first_word(s@) is None,
{
    let t = trim_start_chars(s);
    if t.len() == 0 {
        return None;
    }
    match find_ws(&t) {
        Some(i) => Some(slice_chars(&t, 0, i)),
        None => Some(slice_chars(&t, 0, t.len())),
    }
}

/// `splitn(2, char::is_whitespace)`: the part before the first whitespace
/// character and, when there is one, the part after it.
pub open spec fn split_first_ws(s: Seq<char>) -> (Seq<char>, Option<Seq<char>>) {
    match index_of_ws(s) {
        Some(i) => (s.take(i), Some(s.skip(i + 1))),
        None => (s, None),
    }
}

pub fn split_first_ws_chars(s: &[char]) -> (r: (Vec<char>, Option<Vec<char>>))
    ensures
        r.0@ == split_first_ws(s@).0,
        r.1 matches Some(x) ==> split_first_ws(s@).1 == Some(x@),
        r.1 is None ==> split_first_ws(s@).1 is None,
{
    match find_ws(s) {
        Some(i) => {
            (slice_chars(s, 0, i), Some(slice_chars(s, i + 1, s.len())))
        },
        None => (slice_chars(s, 0, s.len()), None),
    }
}

/// `split_once` on a character.
pub open spec fn split_once(s: Seq<char>, c: char) -> Option<(Seq<char>, Seq<char>)> {
    match index_of(s, c) {
        Some(i) => Some((s.take(i), s.skip(i + 1))),
        None => None,
    }
}

pub fn split_once_chars(s: &[char], c: char) -> (r: Option<(Vec<char>, Vec<char>)>)
    ensures
        r matches Some(p) ==> split_once(s@, c) == Some((p.0@, p.1@)),
        r is None ==> split_once(s@, c) is None,
{
    match find_char(s, c) {
        Some(i) => {
            Some((slice_chars(s, 0, i), slice_chars(s, i + 1, s.len())))
        },
        None => None,
    }
}

/// `rsplit_once` on a character.
pub open spec fn rsplit_once(s: Seq<char>, c: char) -> Option<(Seq<char>, Seq<char>)> {
    match last_index_of(s, c) {
        Some(i) => Some((s.take(i), s.skip(i + 1))),
        None => None,
    }
}

pub fn rsplit_once_chars(s: &[char], c: char) -> (r: Option<(Vec<char>, Vec<char>)>)
    ensures
        r matches Some(p) ==> rsplit_once(s@, c) == Some((p.0@, p.1@)),
        r is None ==> rsplit_once(s@, c) is None,
{
    match rfind_char(s, c) {
        Some(i) => {
            Some((slice_chars(s, 0, i), slice_chars(s, i + 1, s.len())))
        },
        None => None,
    }
}

/// `strip_prefix` with a string pattern.
pub open spec fn strip_prefix(s: Seq<char>, p: Seq<char>) -> Option<Seq<char>> {
    if p.len() <= s.len() && s.take(p.len() as int) == p {
        Some(s.skip(p.len() as int))
    } else {
        None
    }
}

pub fn strip_prefix_str(s: &[char], p: &str) -> (r: Option<Vec<char>>)
    ensures
        r matches Some(x) ==> strip_prefix(s@, p@) == Some(x@),
        r is None ==> strip_prefix(s@, p@) is None,
{
    let pc = chars_of(p);
    if starts_with(s, &pc) {
        Some(slice_chars(s, pc.len(), s.len()))
    } else {
        None
    }
}

/// `strip_suffix` with a string pattern.
pub open spec fn strip_suffix(s: Seq<char>, p: Seq<char>) -> Option<Seq<char>> {
    if p.len() <= s.len() && s.skip(s.len() - p.len()) == p {
        Some(s.take(s.len() - p.len()))
    } else {
        None
    }
}

pub fn strip_suffix_str(s: &[char], p: &str) -> (r: Option<Vec<char>>)
    ensures
        r matches Some(x) ==> strip_suffix(s@, p@) == Some(x@),
        r is None ==> strip_suffix(s@, p@) is None,
{
    let pc = chars_of(p);
    if ends_with(s, &pc) {
        Some(slice_chars(s, 0, s.len() - pc.len()))
    } else {
        None
    }
}

// ---------------------------------------------------------------------------
// Repeated prefix and suffix removal
// ---------------------------------------------------------------------------
/// `trim_end_matches(c)`: removes every trailing `c`.
pub open spec fn trim_end_char(s: Seq<char>, c: char) -> Seq<char>
    decreases s.len(),
{
    if s.len() > 0 && s.last() == c {
        trim_end_char(s.drop_last(), c)
    } else {
        s
    }
}

/// `trim_start_matches(c)`: removes every leading `c`.
pub open spec fn trim_start_char(s: Seq<char>, c: char) -> Seq<char>
    decreases s.len(),
{
    if s.len() > 0 && s[0] == c {
        trim_start_char(s.drop_first(), c)
    } else {
        s
    }
}

/// `trim_matches(c)`.
pub open spec fn trim_char(s: Seq<char>, c: char) -> Seq<char> {
    trim_end_char(trim_start_char(s, c), c)
}

/// `trim_start_matches(p)` for a string pattern.
pub open spec fn trim_start_seq(s: Seq<char>, p: Seq<char>) -> Seq<char>
    decreases s.len(),
{
    if p.len() > 0 && p.len() <= s.len() && s.take(p.len() as int) == p {
        trim_start_seq(s.skip(p.len() as int), p)
    } else {
        s
    }
}

pub fn trim_end_char_chars(s: &[char], c: char) -> (r: Vec<char>)
    ensures
        r@ == trim_end_char(s@, c),
{
    let mut hi = s.len();
    assert(s@.take(hi as int) =~= s@);
    while hi > 0 && s[hi - 1] == c
        invariant
            hi <= s.len(),
            trim_end_char(s@, c) == trim_end_char(s@.take(hi as int), c),
        decreases hi,
    {
        proof {
            assert(s@.take(hi as int).drop_last() =~= s@.take(hi - 1));
        }
        hi -= 1;
    }
    proof {
        if hi == s.len() {
            assert(s@.take(hi as int) =~= s@);
        }
    }
    let r = slice_chars(s, 0, hi);
    proof {
        assert(r@ =~= s@.take(hi as int));
    }
    r
}

pub fn trim_start_char_chars(s: &[char], c: char) -> (r: Vec<char>)
    ensures
        r@ == trim_start_char(s@, c),
{
    let mut lo: usize = 0;
    assert(s@.skip(0) =~= s@);
    while lo < s.len() && s[lo] == c
        invariant
            lo <= s.len(),
            trim_start_char(s@, c) == trim_start_char(s@.skip(lo as int), c),
        decreases s.len() - lo,
    {
        proof {
            assert(s@.skip(lo as int).drop_first() =~= s@.skip(lo + 1));
        }
        lo += 1;
    }
    let r = slice_chars(s, lo, s.len());
    proof {
        assert(r@ =~= s@.skip(lo as int));
    }
    r
}

pub fn trim_char_chars(s: &[char], c: char) -> (r: Vec<char>)
    ensures
        r@ == trim_char(s@, c),
{
    let t = trim_start_char_chars(s, c);
    trim_end_char_chars(&t, c)
}

pub fn trim_start_seq_chars(s: &[char], p: &[char]) -> (r: Vec<char>)
    ensures
        r@ == trim_start_seq(s@, p@),
{
    let mut lo: usize = 0;
    assert(s@.skip(0) =~= s@);
    if p.len() == 0 {
        return slice_chars(s, 0, s.len());
    }
    loop
        invariant
            lo <= s.len(),
            p@.len() > 0,
            trim_start_seq(s@, p@) == trim_start_seq(s@.skip(lo as int), p@),
        decreases s.len() - lo,
    {
        let rest = slice_chars(s, lo, s.len());
        if !starts_with(&rest, p) {
            proof {
                assert(rest@ =~= s@.skip(lo as int));
            }
            return rest;
        }
        proof {
            assert(rest@ =~= s@.skip(lo as int));
            assert(s@.skip(lo as int).skip(p@.len() as int) =~= s@.skip(lo + p@.len()));
        }
        lo = lo + p.len();
    }
}

/// Signed integer parsing as `str::parse::<i16>` and friends: an optional
/// sign followed by decimal digits, within `[min, max]`.
pub open spec fn parse_signed(s: Seq<char>, min: int, max: int) -> Option<int> {
    if s.len() > 0 && s[0] == '-' {
        let d = s.drop_first();
        if d.len() > 0 && all_radix_digits(d, 10) && -digits_value(d, 10) >= min {
            Some(-digits_value(d, 10))
        } else {
            None
        }
    } else {
        match parse_unsigned(s, 10, max as nat) {
            Some(v) => Some(v as int),
            None => None,
        }
    }
}

/// `str::parse::<i16>`.
pub fn parse_i16(s: &[char]) -> (r: Option<i16>)
    ensures
        r matches Some(v) ==> parse_signed(s@, -32768, 32767) == Some(v as int),
        r is None ==> parse_signed(s@, -32768, 32767) is None,
{
    if s.len() > 0 && s[0] == '-' {
        let d = slice_chars(s, 1, s.len());
        proof {
            assert(d@ =~= s@.drop_first());
        }
        if d.len() > 0 && d[0] == '+' {
            proof {
                assert(!is_radix_digit(d@[0], 10));
            }
            return None;
        }
        proof {
            assert(unsigned_digits(d@) == d@);
        }
        match parse_unsigned_chars(&d, 10, 32768) {
            Some(v) => {
                let n = v as i32;
                Some((0 - n) as i16)
            },
            None => None,
        }
    } else {
        match parse_unsigned_chars(s, 10, 32767) {
            Some(v) => Some(v as i16),
            None => None,
        }
    }
}

/// What `char::to_lowercase` yields for one character (full Unicode case
/// mapping, which takes pages to state).
pub uninterp spec fn unicode_lower(c: char) -> Seq<char>;

/// `char::to_lowercase`, collected.  For an ASCII character the mapping is
/// the ASCII one.
#[verifier::external_body]
pub(crate) fn char_to_lowercase(c: char) -> (r: Vec<char>)
    ensures
        r@ == unicode_lower(c),
        (c as u32) < 0x80 ==> r@ == seq![lower(c)],
{
    c.to_lowercase().collect()
}

/// ASCII upper-casing of one character (`char::to_ascii_uppercase`).
pub open spec fn upper(c: char) -> char {
    if is_lower_alpha(c) {
        ((c as u32) - 32) as char
    } else {
        c
    }
}

/// What `char::to_uppercase` yields for one character (full Unicode case
/// mapping, which takes pages to state).
pub uninterp spec fn unicode_upper(c: char) -> Seq<char>;

/// `char::to_uppercase`, collected.  For an ASCII character the mapping is
/// the ASCII one.
#[verifier::external_body]
pub(crate) fn char_to_uppercase(c: char) -> (r: Vec<char>)
    ensures
        r@ == unicode_upper(c),
        (c as u32) < 0x80 ==> r@ == seq![upper(c)],
{
    c.to_uppercase().collect()
}

/// What `str::to_lowercase` yields for a string (full Unicode case
/// mapping, including the context-dependent final sigma).
pub uninterp spec fn unicode_lower_str(s: Seq<char>) -> Seq<char>;

/// Whether every character is ASCII.
pub open spec fn is_ascii_text(s: Seq<char>) -> bool {
    forall|i: int| 0 <= i < s.len() ==> (#[trigger] s[i] as u32) < 0x80
}

/// `str::to_lowercase`. Of ASCII text it is the ASCII lower-casing (each
/// character mapped as `char::to_lowercase` maps an ASCII character).
#[verifier::external_body]
pub(crate) fn str_to_lowercase(s: &str) -> (r: String)
    ensures
        r@ == unicode_lower_str(s@),
        is_ascii_text(s@) ==> r@ == lower_seq(s@),
{
    s.to_lowercase()
}

/// Characters of `s`, each replaced by its Unicode lower-case mapping.
pub open spec fn unicode_lower_seq(s: Seq<char>) -> Seq<char>
    decreases s.len(),
{
    if s.len() == 0 {
        Seq::empty()
    } else {
        unicode_lower_seq(s.drop_last()) + unicode_lower(s.last())
    }
}

/// `s.chars().flat_map(char::to_lowercase)`.
pub fn unicode_lower_chars(s: &[char]) -> (r: Vec<char>)
    ensures
        r@ == unicode_lower_seq(s@),
{
    let mut r: Vec<char> = Vec::new();
    let mut i: usize = 0;
    while i < s.len()
        invariant
            i <= s.len(),
            r@ == unicode_lower_seq(s@.take(i as int)),
        decreases s.len() - i,
    {
        let l = char_to_lowercase(s[i]);
        proof {
            assert(s@.take(i + 1).drop_last() =~= s@.take(i as int));
        }
        append_chars(&mut r, &l);
        i += 1;
    }
    assert(s@.take(s.len() as int) =~= s@);
    r
}

// ---------------------------------------------------------------------------
// Slugs: lower-case ASCII alphanumerics joined by single dashes
// ---------------------------------------------------------------------------
/// One step of slug building: keep ASCII alphanumerics, and collapse every
/// other run of characters into one `-` once something has been kept.
pub open spec fn slug_step(acc: (Seq<char>, bool), c: char) -> (Seq<char>, bool) {
    if is_alnum(c) {
        (acc.0.push(c), false)
    } else if !acc.1 && acc.0.len() > 0 {
        (acc.0.push('-'), true)
    } else {
        acc
    }
}

pub open spec fn slug_fold(s: Seq<char>) -> (Seq<char>, bool)
    decreases s.len(),
{
    if s.len() == 0 {
        (Seq::empty(), false)
    } else {
        slug_step(slug_fold(s.drop_last()), s.last())
    }
}

/// The slug of already lower-cased characters, without the outer dashes.
pub open spec fn slug(s: Seq<char>) -> Seq<char> {
    trim_char(slug_fold(s).0, '-')
}

pub fn slug_chars(s: &[char]) -> (r: Vec<char>)
    ensures
        r@ == slug(s@),
{
    let mut out: Vec<char> = Vec::new();
    let mut separator = false;
    let mut i: usize = 0;
    while i < s.len()
        invariant
            i <= s.len(),
            (out@, separator) == slug_fold(s@.take(i as int)),
        decreases s.len() - i,
    {
        let c = s[i];
        proof {
            assert(s@.take(i + 1).drop_last() =~= s@.take(i as int));
        }
        if char_is_alnum(c) {
            out.push(c);
            separator = false;
        } else if !separator && out.len() > 0 {
            out.push('-');
            separator = true;
        }
        i += 1;
    }
    assert(s@.take(s.len() as int) =~= s@);
    trim_char_chars(&out, '-')
}

/// One step of `split_whitespace`: whitespace ends the current word, and
/// any other character extends it or starts a new one.
pub open spec fn words_step(acc: (Seq<Seq<char>>, bool), c: char) -> (Seq<Seq<char>>, bool) {
    if is_ws(c) {
        (acc.0, false)
    } else if acc.1 && acc.0.len() > 0 {
        (acc.0.update(acc.0.len() - 1, acc.0.last().push(c)), true)
    } else {
        (acc.0.push(seq![c]), true)
    }
}

pub open spec fn words_fold(s: Seq<char>) -> (Seq<Seq<char>>, bool)
    decreases s.len(),
{
    if s.len() == 0 {
        (Seq::empty(), false)
    } else {
        words_step(words_fold(s.drop_last()), s.last())
    }
}

/// `str::split_whitespace`: the maximal runs of non-whitespace characters.
pub open spec fn words(s: Seq<char>) -> Seq<Seq<char>> {
    words_fold(s).0
}

pub fn words_of(s: &[char]) -> (r: Vec<Vec<char>>)
    ensures
        views(r@) == words(s@),
{
    let mut r: Vec<Vec<char>> = Vec::new();
    let mut in_word = false;
    let mut i: usize = 0;
    while i < s.len()
        invariant
            i <= s@.len(),
            (views(r@), in_word) == words_fold(s@.take(i as int)),
        decreases s.len() - i,
    {
        proof {
            assert(s@.take(i + 1).drop_last() =~= s@.take(i as int));
        }
        let c = s[i];
        if char_is_ws(c) {
            in_word = false;
        } else if in_word && r.len() > 0 {
            let last = r.len() - 1;
            let mut w = r[last].clone();
            proof {
                assert(w@ == views(r@)[last as int]);
            }
            w.push(c);
            let ghost before = r@;
            r.set(last, w);
            proof {
                assert(views(r@) =~= views(before).update(last as int, views(before).last().push(c)));
            }
        } else {
            let mut w: Vec<char> = Vec::new();
            w.push(c);
            let ghost before = r@;
            r.push(w);
            proof {
                assert(views(r@) =~= views(before).push(seq![c]));
            }
            in_word = true;
        }
        i += 1;
    }
    assert(s@.take(s.len() as int) =~= s@);
    r
}

/// One step of `split_ascii_whitespace`: whitespace ends the current word, and
/// any other character extends it or starts a new one.
pub open spec fn ascii_words_step(acc: (Seq<Seq<char>>, bool), c: char) -> (Seq<Seq<char>>, bool) {
    if is_ascii_ws(c) {
        (acc.0, false)
    } else if acc.1 && acc.0.len() > 0 {
        (acc.0.update(acc.0.len() - 1, acc.0.last().push(c)), true)
    } else {
        (acc.0.push(seq![c]), true)
    }
}

pub open spec fn ascii_words_fold(s: Seq<char>) -> (Seq<Seq<char>>, bool)
    decreases s.len(),
{
    if s.len() == 0 {
        (Seq::empty(), false)
    } else {
        ascii_words_step(ascii_words_fold(s.drop_last()), s.last())
    }
}

/// `str::split_ascii_whitespace`: the maximal runs of characters that are
/// not ASCII whitespace.
pub open spec fn ascii_words(s: Seq<char>) -> Seq<Seq<char>> {
    ascii_words_fold(s).0
}

pub fn ascii_words_of(s: &[char]) -> (r: Vec<Vec<char>>)
    ensures
        views(r@) == ascii_words(s@),
{
    let mut r: Vec<Vec<char>> = Vec::new();
    let mut in_word = false;
    let mut i: usize = 0;
    while i < s.len()
        invariant
            i <= s@.len(),
            (views(r@), in_word) == ascii_words_fold(s@.take(i as int)),
        decreases s.len() - i,
    {
        proof {
            assert(s@.take(i + 1).drop_last() =~= s@.take(i as int));
        }
        let c = s[i];
        if char_is_ascii_ws(c) {
            in_word = false;
        } else if in_word && r.len() > 0 {
            let last = r.len() - 1;
            let mut w = r[last].clone();
            proof {
                assert(w@ == views(r@)[last as int]);
            }
            w.push(c);
            let ghost before = r@;
            r.set(last, w);
            proof {
                assert(views(r@) =~= views(before).update(last as int, views(before).last().push(c)));
            }
        } else {
            let mut w: Vec<char> = Vec::new();
            w.push(c);
            let ghost before = r@;
            r.push(w);
            proof {
                assert(views(r@) =~= views(before).push(seq![c]));
            }
            in_word = true;
        }
        i += 1;
    }
    assert(s@.take(s.len() as int) =~= s@);
    r
}

/// Lexicographic order of character sequences (the order of `str`'s `Ord`,
/// since UTF-8 preserves the order of scalar values).
pub open spec fn lex_lt(a: Seq<char>, b: Seq<char>) -> bool
    decreases a.len(),
{
    if a.len() == 0 {
        b.len() > 0
    } else if b.len() == 0 {
        false
    } else if a[0] != b[0] {
        a[0] < b[0]
    } else {
        lex_lt(a.drop_first(), b.drop_first())
    }
}

pub proof fn lemma_lex_irreflexive(a: Seq<char>)
    ensures
        !lex_lt(a, a),
    decreases a.len(),
{
    if a.len() > 0 {
        lemma_lex_irreflexive(a.drop_first());
    }
}

pub proof fn lemma_lex_trichotomy(a: Seq<char>, b: Seq<char>)
    ensures
        lex_lt(a, b) || a == b || lex_lt(b, a),
        !(lex_lt(a, b) && lex_lt(b, a)),
    decreases a.len(),
{
    if a.len() > 0 && b.len() > 0 {
        if a[0] == b[0] {
            lemma_lex_trichotomy(a.drop_first(), b.drop_first());
            if a.drop_first() == b.drop_first() {
                assert(a =~= seq![a[0]] + a.drop_first());
                assert(b =~= seq![b[0]] + b.drop_first());
            }
        }
    } else if a.len() == 0 && b.len() == 0 {
        assert(a =~= b);
    }
}

pub proof fn lemma_lex_transitive(a: Seq<char>, b: Seq<char>, c: Seq<char>)
    requires
        lex_lt(a, b),
        lex_lt(b, c),
    ensures
        lex_lt(a, c),
    decreases a.len(),
{
    if a.len() > 0 && b.len() > 0 && c.len() > 0 {
        if a[0] == b[0] && b[0] == c[0] {
            lemma_lex_transitive(a.drop_first(), b.drop_first(), c.drop_first());
        }
    }
}

pub fn chars_lt(a: &[char], b: &[char]) -> (r: bool)
    ensures
        r == lex_lt(a@, b@),
{
    let mut i: usize = 0;
    assert(a@.skip(0) =~= a@);
    assert(b@.skip(0) =~= b@);
    while i < a.len() && i < b.len()
        invariant
            i <= a@.len(),
            i <= b@.len(),
            lex_lt(a@, b@) == lex_lt(a@.skip(i as int), b@.skip(i as int)),
        decreases a.len() - i,
    {
        proof {
            assert(a@.skip(i as int).drop_first() =~= a@.skip(i + 1));
            assert(b@.skip(i as int).drop_first() =~= b@.skip(i + 1));
            assert(a@.skip(i as int)[0] == a@[i as int]);
            assert(b@.skip(i as int)[0] == b@[i as int]);
        }
        if a[i] != b[i] {
            return a[i] < b[i];
        }
        i += 1;
    }
    proof {
        assert(a@.skip(i as int).len() == a@.len() - i);
        assert(b@.skip(i as int).len() == b@.len() - i);
    }
    i == a.len() && i < b.len()
}

/// Whether every character is an ASCII decimal digit.
pub open spec fn all_digits(s: Seq<char>) -> bool {
    forall|i: int| 0 <= i < s.len() ==> is_digit(#[trigger] s[i])
}

pub fn chars_all_digits(s: &[char]) -> (r: bool)
    ensures
        r == all_digits(s@),
{
    let mut i: usize = 0;
    while i < s.len()
        invariant
            i <= s@.len(),
            forall|j: int| 0 <= j < i ==> is_digit(#[trigger] s@[j]),
        decreases s.len() - i,
    {
        if !char_is_digit(s[i]) {
            assert(!is_digit(s@[i as int]));
            return false;
        }
        i += 1;
    }
    true
}

/// An owned copy of a string slice.
pub fn owned(s: &str) -> (r: String)
    ensures
        r@ == s@,
{
    let c = chars_of(s);
    string_of(&c)
}

/// View of an optional owned string.
pub open spec fn opt_view(o: Option<String>) -> Option<Seq<char>> {
    match o {
        Some(s) => Some(s@),
        None => None,
    }
}

/// View of an optional character vector.
pub open spec fn opt_chars(o: Option<Vec<char>>) -> Option<Seq<char>> {
    match o {
        Some(s) => Some(s@),
        None => None,
    }
}

/// An optional owned string built from optional characters.
pub fn opt_string_of(o: Option<Vec<char>>) -> (r: Option<String>)
    ensures
        opt_view(r) == opt_chars(o),
{
    match o {
        Some(v) => Some(string_of(&v)),
        None => None,
    }
}

// ---------------------------------------------------------------------------
// Decimal formatting and paths
// ---------------------------------------------------------------------------
pub open spec fn digit_char(d: nat) -> char {
    (('0' as u32) + d) as char
}

/// The decimal representation of `n` (`Display` for integers).
pub open spec fn decimal(n: nat) -> Seq<char>
    decreases n,
{
    if n < 10 {
        seq![digit_char(n)]
    } else {
        decimal(n / 10).push(digit_char(n % 10))
    }
}

/// `to_string()` of an unsigned integer.
pub fn decimal_chars(n: u128) -> (r: Vec<char>)
    ensures
        r@ == decimal(n as nat),
    decreases n,
{
    let d = (n % 10) as u32;
    let c = char_from_ascii(0x30 + d);
    if n < 10 {
        let mut r: Vec<char> = Vec::new();
        r.push(c);
        r
    } else {
        let mut r = decimal_chars(n / 10);
        r.push(c);
        r
    }
}

/// `to_string()` of an unsigned integer.
pub fn decimal_string(n: u128) -> (r: String)
    ensures
        r@ == decimal(n as nat),
{
    let v = decimal_chars(n);
    string_of(&v)
}

/// `Path::join` of a relative name onto a directory, written as text.
pub open spec fn join_path(dir: Seq<char>, name: Seq<char>) -> Seq<char> {
    if dir.len() == 0 {
        name
    } else if dir.last() == '/' {
        dir + name
    } else {
        dir + "/"@ + name
    }
}

pub fn join_path_string(dir: &str, name: &str) -> (r: String)
    ensures
        r@ == join_path(dir@, name@),
{
    let d = chars_of(dir);
    let mut v: Vec<char> = Vec::new();
    append_chars(&mut v, &d);
    if d.len() > 0 && d[d.len() - 1] != '/' {
        append_str(&mut v, "/");
    }
    append_str(&mut v, name);
    proof {
        if d@.len() == 0 {
            assert(v@ =~= name@);
        }
    }
    string_of(&v)
}

/// Trimming keeps text ASCII.
pub proof fn lemma_trim_ascii(s: Seq<char>)
    requires
        is_ascii_text(s),
    ensures
        is_ascii_text(trim(s)),
{
    lemma_lead_ws_bound(s);
    let a = trim_start(s);
    lemma_trail_ws_bound(a);
    assert forall|i: int| 0 <= i < trim(s).len() implies (#[trigger] trim(s)[i] as u32) < 0x80 by {
        assert(trim(s)[i] == a[i]);
        assert(a[i] == s[i + lead_ws(s)]);
    }
}

/// ASCII lower-casing keeps text ASCII.
pub proof fn lemma_lower_ascii(s: Seq<char>)
    requires
        is_ascii_text(s),
    ensures
        is_ascii_text(lower_seq(s)),
{
    assert forall|i: int| 0 <= i < lower_seq(s).len() implies (#[trigger] lower_seq(s)[i] as u32) < 0x80 by {
        assert(lower_seq(s)[i] == lower(s[i]));
    }
}

/// Lower-casing twice is lower-casing once.
pub proof fn lemma_lower_idempotent(s: Seq<char>)
    ensures
        lower_seq(lower_seq(s)) == lower_seq(s),
{
    assert(lower_seq(lower_seq(s)) =~= lower_seq(s));
}

/// Lower-casing a trimmed text leaves nothing to trim.
pub proof fn lemma_trim_lower_trimmed(s: Seq<char>)
    ensures
        trim(lower_seq(trim(s))) == lower_seq(trim(s)),
{
    let t = trim(s);
    let a = trim_start(s);
    lemma_lead_ws_bound(s);
    lemma_trail_ws_bound(a);
    let l = lower_seq(t);
    if t.len() > 0 {
        assert(t[0] == a[0]);
        assert(a[0] == s[lead_ws(s) as int]);
        assert(!is_ws(t[0]));
        assert(t[t.len() - 1] == a[a.len() - trail_ws(a) - 1]);
        assert(!is_ws(t[t.len() - 1]));
        assert(l[0] == lower(t[0]));
        assert(l[l.len() - 1] == lower(t[t.len() - 1]));
        lemma_lead_ws_is(l, 0);
        lemma_trail_ws_is(l.skip(0), 0);
        assert(l.skip(0) =~= l);
        assert(l.skip(0).take(l.len() as int) =~= l);
    } else {
        lemma_lead_ws_is(l, 0);
        assert(l.skip(0) =~= l);
        lemma_trail_ws_is(l, 0);
        assert(l.take(0) =~= l);
    }
}

/// A text that holds `q` holds every part of `q`.
pub proof fn lemma_contains_transitive(s: Seq<char>, q: Seq<char>, p: Seq<char>)
    requires
        contains_seq(s, q),
        contains_seq(q, p),
    ensures
        contains_seq(s, p),
{
    let i = choose|i: int| contains_at(s, q, i);
    let j = choose|j: int| contains_at(q, p, j);
    assert forall|k: int| 0 <= k < p.len() implies s[i + j + k] == p[k] by {
        assert(q[j + k] == p[k]);
        assert(s[i + (j + k)] == q[j + k]);
    }
    assert(contains_at(s, p, i + j));
}

} // verus!

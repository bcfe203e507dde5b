//! Natural ordering of labels: runs of ASCII digits compare by numeric
//! value (then by length, so `2` comes before `02`), other runs compare
//! character by character.
use vstd::prelude::*;
use crate::text::is_digit;

verus! {

/// The sign of a comparison: -1, 0 or 1.
pub open spec fn sign_of(a: int, b: int) -> int {
    if a < b {
        -1
    } else if a == b {
        0
    } else {
        1
    }
}

/// Order of two characters by code point, as -1, 0 or 1.
pub open spec fn char_order(a: char, b: char) -> int {
    if a < b {
        -1
    } else if a == b {
        0
    } else {
        1
    }
}

/// Lexicographic order of two character sequences by code point, as -1, 0 or 1.
pub open spec fn lex_order(a: Seq<char>, b: Seq<char>) -> int
    decreases a.len(),
{
    if a.len() == 0 {
        if b.len() == 0 {
            0
        } else {
            -1
        }
    } else if b.len() == 0 {
        1
    } else if a[0] != b[0] {
        char_order(a[0], b[0])
    } else {
        lex_order(a.drop_first(), b.drop_first())
    }
}

/// The number of ASCII digits that start `s`.
pub open spec fn digit_len(s: Seq<char>) -> nat
    decreases s.len(),
{
    if s.len() > 0 && is_digit(s[0]) {
        1 + digit_len(s.drop_first())
    } else {
        0
    }
}

/// The number of non-digit characters that start `s`.
pub open spec fn text_len(s: Seq<char>) -> nat
    decreases s.len(),
{
    if s.len() > 0 && !is_digit(s[0]) {
        1 + text_len(s.drop_first())
    } else {
        0
    }
}

pub proof fn lemma_run_lengths(s: Seq<char>)
    ensures
        digit_len(s) <= s.len(),
        text_len(s) <= s.len(),
        s.len() > 0 && is_digit(s[0]) ==> digit_len(s) >= 1,
        s.len() > 0 && !is_digit(s[0]) ==> text_len(s) >= 1,
    decreases s.len(),
{
    if s.len() > 0 {
        lemma_run_lengths(s.drop_first());
    }
}

/// A digit run without its leading zeros, keeping at least its last digit.
pub open spec fn significant_digits(run: Seq<char>) -> Seq<char>
    decreases run.len(),
{
    if run.len() > 1 && run[0] == '0' {
        significant_digits(run.drop_first())
    } else {
        run
    }
}

/// Order of two digit runs: by numeric value (fewer significant digits
/// first, then digit by digit), then the shorter run first.
pub open spec fn digit_run_order(a: Seq<char>, b: Seq<char>) -> int {
    let sa = significant_digits(a);
    let sb = significant_digits(b);
    if sa.len() != sb.len() {
        sign_of(sa.len() as int, sb.len() as int)
    } else if lex_order(sa, sb) != 0 {
        lex_order(sa, sb)
    } else {
        sign_of(a.len() as int, b.len() as int)
    }
}

/// Natural order of two (already lower-cased) labels, as -1, 0 or 1.
pub open spec fn natural_order(l: Seq<char>, r: Seq<char>) -> int
    decreases l.len() + r.len(),
{
    if l.len() > 0 && r.len() > 0 {
        proof {
            lemma_run_lengths(l);
            lemma_run_lengths(r);
        }
        let ld = is_digit(l[0]);
        let rd = is_digit(r[0]);
        if ld && rd {
            let a = digit_len(l);
            let b = digit_len(r);
            let o = digit_run_order(l.take(a as int), r.take(b as int));
            if o != 0 {
                o
            } else {
                natural_order(l.skip(a as int), r.skip(b as int))
            }
        } else if ld != rd {
            char_order(l[0], r[0])
        } else {
            let a = text_len(l);
            let b = text_len(r);
            let o = lex_order(l.take(a as int), r.take(b as int));
            if o != 0 {
                o
            } else {
                natural_order(l.skip(a as int), r.skip(b as int))
            }
        }
    } else {
        sign_of(l.len() as int, r.len() as int)
    }
}

proof fn lemma_digit_len(s: Seq<char>, k: int)
    requires
        0 <= k <= s.len(),
        forall|j: int| 0 <= j < k ==> is_digit(#[trigger] s[j]),
        k < s.len() ==> !is_digit(s[k]),
    ensures
        digit_len(s) == k,
    decreases s.len(),
{
    if s.len() > 0 && k > 0 {
        assert forall|j: int| 0 <= j < k - 1 implies is_digit(#[trigger] s.drop_first()[j]) by {
            assert(s.drop_first()[j] == s[j + 1]);
        }
        if k < s.len() {
            assert(s.drop_first()[k - 1] == s[k]);
        }
        lemma_digit_len(s.drop_first(), k - 1);
    }
}

proof fn lemma_text_len(s: Seq<char>, k: int)
    requires
        0 <= k <= s.len(),
        forall|j: int| 0 <= j < k ==> !is_digit(#[trigger] s[j]),
        k < s.len() ==> is_digit(s[k]),
    ensures
        text_len(s) == k,
    decreases s.len(),
{
    if s.len() > 0 && k > 0 {
        assert forall|j: int| 0 <= j < k - 1 implies !is_digit(#[trigger] s.drop_first()[j]) by {
            assert(s.drop_first()[j] == s[j + 1]);
        }
        if k < s.len() {
            assert(s.drop_first()[k - 1] == s[k]);
        }
        lemma_text_len(s.drop_first(), k - 1);
    }
}

fn sign(a: usize, b: usize) -> (r: i8)
    ensures
        r == sign_of(a as int, b as int),
{
    if a < b {
        -1
    } else if a == b {
        0
    } else {
        1
    }
}

fn char_sign(a: char, b: char) -> (r: i8)
    ensures
        r == char_order(a, b),
{
    if a < b {
        -1
    } else if a == b {
        0
    } else {
        1
    }
}

/// Lexicographic comparison of `a[alo..ahi]` and `b[blo..bhi]`.
fn lex_order_of(a: &[char], alo: usize, ahi: usize, b: &[char], blo: usize, bhi: usize) -> (r: i8)
    requires
        alo <= ahi <= a@.len(),
        blo <= bhi <= b@.len(),
    ensures
        r == lex_order(a@.subrange(alo as int, ahi as int), b@.subrange(blo as int, bhi as int)),
{
    let ghost x = a@.subrange(alo as int, ahi as int);
    let ghost y = b@.subrange(blo as int, bhi as int);
    let mut k: usize = 0;
    assert(x.skip(0) =~= x);
    assert(y.skip(0) =~= y);
    while alo + k < ahi && blo + k < bhi
        invariant
            alo <= ahi <= a@.len(),
            blo <= bhi <= b@.len(),
            x == a@.subrange(alo as int, ahi as int),
            y == b@.subrange(blo as int, bhi as int),
            alo + k <= ahi,
            blo + k <= bhi,
            lex_order(x, y) == lex_order(x.skip(k as int), y.skip(k as int)),
        decreases ahi - alo - k,
    {
        let ca = a[alo + k];
        let cb = b[blo + k];
        assert(x.skip(k as int)[0] == ca);
        assert(y.skip(k as int)[0] == cb);
        if ca != cb {
            return char_sign(ca, cb);
        }
        assert(x.skip(k as int).drop_first() =~= x.skip(k + 1));
        assert(y.skip(k as int).drop_first() =~= y.skip(k + 1));
        k += 1;
    }
    if alo + k == ahi {
        if blo + k == bhi {
            0
        } else {
            -1
        }
    } else {
        1
    }
}

/// The end of the run of digits (or of non-digits) that starts at `start`.
fn run_end(s: &[char], start: usize, digits: bool) -> (r: usize)
    requires
        start <= s@.len(),
    ensures
        start <= r <= s@.len(),
        digits ==> r - start == digit_len(s@.skip(start as int)),
        !digits ==> r - start == text_len(s@.skip(start as int)),
{
    let mut k = start;
    while k < s.len() && crate::text::char_is_digit(s[k]) == digits
        invariant
            start <= k <= s@.len(),
            forall|j: int| start <= j < k ==> is_digit(#[trigger] s@[j]) == digits,
        decreases s@.len() - k,
    {
        k += 1;
    }
    proof {
        let t = s@.skip(start as int);
        if digits {
            assert forall|j: int| 0 <= j < k - start implies is_digit(#[trigger] t[j]) by {
                assert(t[j] == s@[start + j]);
            }
            if k < s.len() {
                assert(t[k - start] == s@[k as int]);
            }
            lemma_digit_len(t, k - start);
        } else {
            assert forall|j: int| 0 <= j < k - start implies !is_digit(#[trigger] t[j]) by {
                assert(t[j] == s@[start + j]);
            }
            if k < s.len() {
                assert(t[k - start] == s@[k as int]);
            }
            lemma_text_len(t, k - start);
        }
    }
    k
}

/// Where the significant digits of `s[lo..hi]` start.
fn significant_start(s: &[char], lo: usize, hi: usize) -> (r: usize)
    requires
        lo < hi <= s@.len(),
    ensures
        lo <= r < hi,
        s@.subrange(r as int, hi as int) == significant_digits(s@.subrange(lo as int, hi as int)),
{
    let mut k = lo;
    while k + 1 < hi && s[k] == '0'
        invariant
            lo <= k < hi <= s@.len(),
            significant_digits(s@.subrange(lo as int, hi as int)) == significant_digits(
                s@.subrange(k as int, hi as int),
            ),
        decreases hi - k,
    {
        assert(s@.subrange(k as int, hi as int).drop_first() =~= s@.subrange(k + 1, hi as int));
        k += 1;
    }
    k
}

/// Compares two digit runs `l[li..le]` and `r[ri..re]`.
fn digit_run_order_of(l: &[char], li: usize, le: usize, r: &[char], ri: usize, re: usize) -> (o: i8)
    requires
        li < le <= l@.len(),
        ri < re <= r@.len(),
    ensures
        o == digit_run_order(l@.subrange(li as int, le as int), r@.subrange(ri as int, re as int)),
{
    let ls = significant_start(l, li, le);
    let rs = significant_start(r, ri, re);
    if le - ls != re - rs {
        return sign(le - ls, re - rs);
    }
    let o = lex_order_of(l, ls, le, r, rs, re);
    if o != 0 {
        return o;
    }
    sign(le - li, re - ri)
}

/// Natural order of two labels (already lower-cased), as -1, 0 or 1.
pub fn natural_order_of(l: &[char], r: &[char]) -> (o: i8)
    ensures
        o == natural_order(l@, r@),
{
    let mut i: usize = 0;
    let mut j: usize = 0;
    assert(l@.skip(0) =~= l@);
    assert(r@.skip(0) =~= r@);
    while i < l.len() && j < r.len()
        invariant
            i <= l@.len(),
            j <= r@.len(),
            natural_order(l@, r@) == natural_order(l@.skip(i as int), r@.skip(j as int)),
        decreases l@.len() - i + r@.len() - j,
    {
        let ghost x = l@.skip(i as int);
        let ghost y = r@.skip(j as int);
        proof {
            lemma_run_lengths(x);
            lemma_run_lengths(y);
        }
        assert(x[0] == l@[i as int]);
        assert(y[0] == r@[j as int]);
        let ld = crate::text::char_is_digit(l[i]);
        let rd = crate::text::char_is_digit(r[j]);
        if ld && rd {
            let le = run_end(l, i, true);
            let re = run_end(r, j, true);
            assert(x.take(le - i) =~= l@.subrange(i as int, le as int));
            assert(y.take(re - j) =~= r@.subrange(j as int, re as int));
            assert(x.skip(le - i) =~= l@.skip(le as int));
            assert(y.skip(re - j) =~= r@.skip(re as int));
            let o = digit_run_order_of(l, i, le, r, j, re);
            if o != 0 {
                return o;
            }
            i = le;
            j = re;
        } else if ld != rd {
            return char_sign(l[i], r[j]);
        } else {
            let le = run_end(l, i, false);
            let re = run_end(r, j, false);
            assert(x.take(le - i) =~= l@.subrange(i as int, le as int));
            assert(y.take(re - j) =~= r@.subrange(j as int, re as int));
            assert(x.skip(le - i) =~= l@.skip(le as int));
            assert(y.skip(re - j) =~= r@.skip(re as int));
            let o = lex_order_of(l, i, le, r, j, re);
            if o != 0 {
                return o;
            }
            i = le;
            j = re;
        }
    }
    sign(l.len() - i, r.len() - j)
}

pub proof fn lemma_lex_order_antisymmetric(a: Seq<char>, b: Seq<char>)
    ensures
        lex_order(a, b) == -lex_order(b, a),
        lex_order(a, b) == 0 <==> a == b,
    decreases a.len(),
{
    if a.len() == 0 && b.len() == 0 {
        assert(a =~= b);
    } else if a.len() == 0 || b.len() == 0 {
        assert(a.len() != b.len());
    } else if a[0] != b[0] {
        assert(a != b);
    } else {
        lemma_lex_order_antisymmetric(a.drop_first(), b.drop_first());
        if a.drop_first() == b.drop_first() {
            assert(a =~= seq![a[0]] + a.drop_first());
            assert(b =~= seq![b[0]] + b.drop_first());
        }
        if a == b {
            assert(a.drop_first() == b.drop_first());
        }
    }
}

proof fn lemma_significant_suffix(run: Seq<char>)
    ensures
        significant_digits(run).len() <= run.len(),
        exists|k: int| 0 <= k <= run.len() && #[trigger] run.skip(k) == significant_digits(run),
    decreases run.len(),
{
    if run.len() > 1 && run[0] == '0' {
        lemma_significant_suffix(run.drop_first());
        let k = choose|k: int| 0 <= k <= run.drop_first().len() && #[trigger] run.drop_first().skip(k) == significant_digits(run.drop_first());
        assert(run.skip(k + 1) =~= run.drop_first().skip(k));
    } else {
        assert(run.skip(0) =~= run);
    }
}

proof fn lemma_digit_run_order_antisymmetric(a: Seq<char>, b: Seq<char>)
    ensures
        digit_run_order(a, b) == -digit_run_order(b, a),
        digit_run_order(a, b) == 0 ==> a.len() == b.len() && significant_digits(a) == significant_digits(b),
{
    lemma_lex_order_antisymmetric(significant_digits(a), significant_digits(b));
}

/// Two digit runs of equal length with the same significant digits are equal.
proof fn lemma_same_digit_runs(a: Seq<char>, b: Seq<char>)
    requires
        a.len() == b.len(),
        significant_digits(a) == significant_digits(b),
        forall|i: int| 0 <= i < a.len() ==> is_digit(#[trigger] a[i]),
        forall|i: int| 0 <= i < b.len() ==> is_digit(#[trigger] b[i]),
    ensures
        a == b,
    decreases a.len(),
{
    if a.len() > 1 {
        if a[0] == '0' && b[0] == '0' {
            assert forall|i: int| 0 <= i < a.drop_first().len() implies is_digit(#[trigger] a.drop_first()[i]) by {
                assert(a.drop_first()[i] == a[i + 1]);
            }
            assert forall|i: int| 0 <= i < b.drop_first().len() implies is_digit(#[trigger] b.drop_first()[i]) by {
                assert(b.drop_first()[i] == b[i + 1]);
            }
            lemma_same_digit_runs(a.drop_first(), b.drop_first());
            assert(a =~= seq![a[0]] + a.drop_first());
            assert(b =~= seq![b[0]] + b.drop_first());
        } else if a[0] == '0' {
            lemma_significant_suffix(a.drop_first());
        } else if b[0] == '0' {
            lemma_significant_suffix(b.drop_first());
        }
    }
}

proof fn lemma_digit_prefix(s: Seq<char>)
    ensures
        forall|i: int| 0 <= i < digit_len(s) ==> is_digit(#[trigger] s.take(digit_len(s) as int)[i]),
    decreases s.len(),
{
    lemma_run_lengths(s);
    if s.len() > 0 && is_digit(s[0]) {
        lemma_digit_prefix(s.drop_first());
        lemma_run_lengths(s.drop_first());
        assert forall|i: int| 0 <= i < digit_len(s) implies is_digit(#[trigger] s.take(digit_len(s) as int)[i]) by {
            if i > 0 {
                assert(s.take(digit_len(s) as int)[i] == s.drop_first().take(digit_len(s.drop_first()) as int)[i - 1]);
            }
        }
    }
}

/// The natural order is antisymmetric, and it calls two labels equal only
/// when they are the same.
pub proof fn law_natural_order_antisymmetric(l: Seq<char>, r: Seq<char>)
    ensures
        natural_order(l, r) == -natural_order(r, l),
        natural_order(l, r) == 0 <==> l == r,
    decreases l.len() + r.len(),
{
    if l.len() > 0 && r.len() > 0 {
        lemma_run_lengths(l);
        lemma_run_lengths(r);
        let ld = is_digit(l[0]);
        let rd = is_digit(r[0]);
        if ld && rd {
            let a = digit_len(l);
            let b = digit_len(r);
            let la = l.take(a as int);
            let rb = r.take(b as int);
            lemma_digit_run_order_antisymmetric(la, rb);
            law_natural_order_antisymmetric(l.skip(a as int), r.skip(b as int));
            if digit_run_order(la, rb) == 0 {
                lemma_digit_prefix(l);
                lemma_digit_prefix(r);
                lemma_same_digit_runs(la, rb);
                if l.skip(a as int) == r.skip(b as int) {
                    assert(l =~= la + l.skip(a as int));
                    assert(r =~= rb + r.skip(b as int));
                }
            }
            if l == r {
                assert(la == rb);
                lemma_lex_order_antisymmetric(significant_digits(la), significant_digits(rb));
                assert(digit_run_order(la, rb) == 0);
                assert(l.skip(a as int) == r.skip(b as int));
            }
        } else if ld != rd {
            assert(l[0] != r[0]);
            assert(l != r);
        } else {
            let a = text_len(l);
            let b = text_len(r);
            let la = l.take(a as int);
            let rb = r.take(b as int);
            lemma_lex_order_antisymmetric(la, rb);
            law_natural_order_antisymmetric(l.skip(a as int), r.skip(b as int));
            if la == rb && l.skip(a as int) == r.skip(b as int) {
                assert(l =~= la + l.skip(a as int));
                assert(r =~= rb + r.skip(b as int));
            }
            if l == r {
                assert(la == rb);
                assert(l.skip(a as int) == r.skip(b as int));
            }
        }
    } else if l.len() == 0 && r.len() == 0 {
        assert(l =~= r);
    } else {
        assert(l.len() != r.len());
    }
}


/// Compares two strings character by character, as `Ord` on `str` does.
pub fn text_order(a: &str, b: &str) -> (r: i8)
    ensures
        r == lex_order(a@, b@),
{
    let x = crate::text::chars_of(a);
    let y = crate::text::chars_of(b);
    let r = lex_order_of(x.as_slice(), 0, x.len(), y.as_slice(), 0, y.len());
    assert(x@.subrange(0, x@.len() as int) =~= a@);
    assert(y@.subrange(0, y@.len() as int) =~= b@);
    r
}

} // verus!

//! Linux CPU lists such as `0-3,8,10-11`, and sorted sets of CPU numbers.
use vstd::prelude::*;
use crate::text::{
    chars_of, is_ascii_ws, parse_unsigned, parse_unsigned_chars, split, split_chars, split_once,
    split_once_chars, trim, trim_chars, views,
};

verus! {

/// The CPUs one token names: `a-b` names `a` to `b` (none when `a > b`),
/// a number names itself, and anything else names none.
pub open spec fn token_cpus(token: Seq<char>) -> Set<u32> {
    match split_once(token, '-') {
        Some((a, b)) => match (parse_unsigned(a, 10, u32::MAX as nat), parse_unsigned(b, 10, u32::MAX as nat)) {
            (Some(x), Some(y)) => Set::new(|c: u32| x <= c <= y),
            _ => Set::empty(),
        },
        None => match parse_unsigned(token, 10, u32::MAX as nat) {
            Some(x) => set![x as u32],
            None => Set::empty(),
        },
    }
}

/// The CPUs that a sequence of tokens names, each token trimmed first.
pub open spec fn tokens_cpus(tokens: Seq<Seq<char>>) -> Set<u32>
    decreases tokens.len(),
{
    if tokens.len() == 0 {
        Set::empty()
    } else {
        tokens_cpus(tokens.drop_last()) + token_cpus(trim(tokens.last()))
    }
}

/// `s` with every ASCII whitespace character replaced by a comma.
pub open spec fn commas_for_spaces(s: Seq<char>) -> Seq<char> {
    s.map_values(|c: char| if is_ascii_ws(c) { ',' } else { c })
}

/// The tokens of a CPU list: separated by commas, and also by ASCII
/// whitespace when `spaces_separate` holds.
pub open spec fn cpu_list_tokens(value: Seq<char>, spaces_separate: bool) -> Seq<Seq<char>> {
    if spaces_separate {
        split(commas_for_spaces(value), ',')
    } else {
        split(value, ',')
    }
}

/// The set of CPUs a CPU list names.
pub open spec fn cpu_list(value: Seq<char>, spaces_separate: bool) -> Set<u32> {
    tokens_cpus(cpu_list_tokens(value, spaces_separate))
}

/// Strictly increasing.
pub open spec fn strictly_sorted(s: Seq<u32>) -> bool {
    forall|i: int, j: int| 0 <= i < j < s.len() ==> s[i] < s[j]
}

/// A strictly increasing sequence that holds exactly the members of `set`.
pub open spec fn lists_set(s: Seq<u32>, set: Set<u32>) -> bool {
    strictly_sorted(s) && forall|c: u32| #[trigger] s.contains(c) <==> set.contains(c)
}

/// Adds `x` to a strictly increasing vector, keeping it so.
pub fn insert_sorted(v: &mut Vec<u32>, x: u32)
    requires
        strictly_sorted(old(v)@),
    ensures
        strictly_sorted(final(v)@),
        forall|c: u32| #[trigger] final(v)@.contains(c) <==> (old(v)@.contains(c) || c == x),
{
    let mut p: usize = 0;
    while p < v.len() && v[p] < x
        invariant
            p <= v@.len(),
            v@ == old(v)@,
            strictly_sorted(v@),
            forall|i: int| 0 <= i < p ==> v@[i] < x,
        decreases v.len() - p,
    {
        p += 1;
    }
    if p < v.len() && v[p] == x {
        return;
    }
    let ghost before = v@;
    v.insert(p, x);
    proof {
        assert forall|i: int, j: int| 0 <= i < j < v@.len() implies v@[i] < v@[j] by {
            if j < p {
            } else if j == p {
            } else if i < p {
                assert(v@[j] == before[j - 1]);
            } else if i == p {
                assert(v@[j] == before[j - 1]);
                assert(before[p as int] > x);
                if j - 1 > p {
                    assert(before[p as int] < before[j - 1]);
                }
            } else {
                assert(v@[j] == before[j - 1]);
                assert(v@[i] == before[i - 1]);
            }
        }
        assert forall|c: u32| #[trigger] v@.contains(c) <==> (before.contains(c) || c == x) by {
            if v@.contains(c) {
                let k = choose|k: int| 0 <= k < v@.len() && v@[k] == c;
                if k < p {
                    assert(before[k] == c);
                } else if k > p {
                    assert(before[k - 1] == c);
                }
            }
            if before.contains(c) {
                let k = choose|k: int| 0 <= k < before.len() && before[k] == c;
                if k < p {
                    assert(v@[k] == c);
                } else {
                    assert(v@[k + 1] == c);
                }
            }
            if c == x {
                assert(v@[p as int] == x);
            }
        }
    }
}

/// The members of one token, added to a sorted vector.
fn add_token(v: &mut Vec<u32>, token: &[char])
    requires
        strictly_sorted(old(v)@),
    ensures
        strictly_sorted(final(v)@),
        forall|c: u32| #[trigger] final(v)@.contains(c) <==> (old(v)@.contains(c) || token_cpus(token@).contains(c)),
{
    match split_once_chars(token, '-') {
        Some((a, b)) => {
            let x = parse_unsigned_chars(&a, 10, u32::MAX as u64);
            let y = parse_unsigned_chars(&b, 10, u32::MAX as u64);
            match (x, y) {
                (Some(x), Some(y)) => {
                    let x = x as u32;
                    let y = y as u32;
                    let mut c: u64 = x as u64;
                    if x > y {
                        return;
                    }
                    while c <= y as u64
                        invariant
                            x <= c <= y as u64 + 1,
                            strictly_sorted(v@),
                            token_cpus(token@) == Set::new(|d: u32| x <= d <= y),
                            forall|d: u32| #[trigger] v@.contains(d) <==> (old(v)@.contains(d) || (x <= d && d < c)),
                        decreases y as u64 + 1 - c,
                    {
                        insert_sorted(v, c as u32);
                        c += 1;
                    }
                },
                _ => {},
            }
        },
        None => {
            match parse_unsigned_chars(token, 10, u32::MAX as u64) {
                Some(x) => insert_sorted(v, x as u32),
                None => {},
            }
        },
    }
}

/// The CPUs of a CPU list, in increasing order and without repeats.
pub fn parse_cpu_list_with(value: &str, spaces_separate: bool) -> (r: Vec<u32>)
    ensures
        lists_set(r@, cpu_list(value@, spaces_separate)),
{
    let c = chars_of(value);
    let source = if spaces_separate {
        let mut m: Vec<char> = Vec::new();
        let mut i: usize = 0;
        while i < c.len()
            invariant
                i <= c@.len(),
                c@ == value@,
                m@ == commas_for_spaces(c@.take(i as int)),
            decreases c.len() - i,
        {
            let ch = c[i];
            m.push(if crate::text::char_is_ascii_ws(ch) { ',' } else { ch });
            assert(commas_for_spaces(c@.take(i + 1)) =~= commas_for_spaces(c@.take(i as int)).push(
                if is_ascii_ws(ch) { ',' } else { ch },
            ));
            i += 1;
        }
        assert(c@.take(c.len() as int) =~= c@);
        m
    } else {
        c
    };
    let tokens = split_chars(&source, ',');
    let ghost ts = cpu_list_tokens(value@, spaces_separate);
    let mut r: Vec<u32> = Vec::new();
    let mut i: usize = 0;
    while i < tokens.len()
        invariant
            i <= tokens@.len(),
            views(tokens@) == ts,
            ts == cpu_list_tokens(value@, spaces_separate),
            strictly_sorted(r@),
            forall|d: u32| #[trigger] r@.contains(d) <==> tokens_cpus(ts.take(i as int)).contains(d),
        decreases tokens.len() - i,
    {
        proof {
            assert(ts.take(i + 1).drop_last() =~= ts.take(i as int));
            assert(ts[i as int] == tokens@[i as int]@);
        }
        let t = trim_chars(&tokens[i]);
        add_token(&mut r, &t);
        i += 1;
    }
    assert(ts.take(tokens.len() as int) =~= ts);
    r
}

} // verus!

//! Grouping the current frequencies of cpufreq policies by the physical core
//! (or, failing that, the policy) that owns them: one sensor per key, in
//! the order of the keys, with the sampled policies and logical CPUs listed
//! once each, in order.
use vstd::prelude::*;
use crate::collect::cpulist::{insert_sorted, strictly_sorted};
use crate::natural::{lemma_lex_order_antisymmetric, lex_order, text_order};

verus! {

/// The current frequency of one policy, with the key and label that
/// `frequency_owner` gave it and the logical CPUs it covers.
#[derive(Debug, Clone)]
pub struct PolicyFrequency {
    pub key: String,
    pub label: String,
    pub policy: String,
    pub khz: u64,
    pub cpus: Vec<u32>,
}

/// The policies that share one key: the label of the first of them, their
/// frequencies in input order, their names and their logical CPUs.
#[derive(Debug, Clone)]
pub struct FrequencyGroup {
    pub key: String,
    pub label: String,
    pub khz: Vec<u64>,
    pub policies: Vec<String>,
    pub cpus: Vec<u32>,
}

/// The character sequences of a list of strings.
pub open spec fn texts(v: Seq<String>) -> Seq<Seq<char>> {
    v.map_values(|x: String| x@)
}

/// Each element comes before the next one.
pub open spec fn texts_ascending(v: Seq<Seq<char>>) -> bool {
    forall|i: int, j: int| 0 <= i && j == i + 1 && j < v.len() ==> lex_order(#[trigger] v[i], #[trigger] v[j]) < 0
}

/// Whether one of the first `n` policies has key `k`.
pub open spec fn has_key(s: Seq<PolicyFrequency>, n: int, k: Seq<char>) -> bool {
    exists|i: int| #![trigger s[i]] 0 <= i < n && s[i].key@ == k
}

/// The frequencies of the first `n` policies with key `k`, in order.
pub open spec fn khz_for(s: Seq<PolicyFrequency>, n: nat, k: Seq<char>) -> Seq<u64>
    decreases n,
{
    if n == 0 {
        seq![]
    } else if s[n - 1].key@ == k {
        khz_for(s, (n - 1) as nat, k).push(s[n - 1].khz)
    } else {
        khz_for(s, (n - 1) as nat, k)
    }
}

/// The label of the first policy with key `k` among the first `n`.
pub open spec fn first_label(s: Seq<PolicyFrequency>, n: nat, k: Seq<char>) -> Seq<char>
    decreases n,
{
    if n == 0 {
        seq![]
    } else if has_key(s, n - 1, k) {
        first_label(s, (n - 1) as nat, k)
    } else {
        s[n - 1].label@
    }
}

/// Whether a policy named `p` with key `k` is among the first `n`.
pub open spec fn policy_named(s: Seq<PolicyFrequency>, n: int, k: Seq<char>, p: Seq<char>) -> bool {
    exists|i: int| #![trigger s[i]] 0 <= i < n && s[i].key@ == k && s[i].policy@ == p
}

/// Whether CPU `c` belongs to a policy with key `k` among the first `n`.
pub open spec fn cpu_listed(s: Seq<PolicyFrequency>, n: int, k: Seq<char>, c: u32) -> bool {
    exists|i: int| #![trigger s[i]] 0 <= i < n && s[i].key@ == k && s[i].cpus@.contains(c)
}

/// A group holds what the first `n` policies with its key give it.
pub open spec fn group_matches(g: FrequencyGroup, s: Seq<PolicyFrequency>, n: nat) -> bool {
    &&& g.khz@ == khz_for(s, n, g.key@)
    &&& g.label@ == first_label(s, n, g.key@)
    &&& texts_ascending(texts(g.policies@))
    &&& texts(g.policies@).no_duplicates()
    &&& forall|p: Seq<char>| #[trigger] texts(g.policies@).contains(p) <==> policy_named(s, n as int, g.key@, p)
    &&& strictly_sorted(g.cpus@)
    &&& forall|c: u32| #[trigger] g.cpus@.contains(c) <==> cpu_listed(s, n as int, g.key@, c)
}

/// The keys of the groups.
pub open spec fn keys(g: Seq<FrequencyGroup>) -> Seq<Seq<char>> {
    g.map_values(|x: FrequencyGroup| x.key@)
}

/// The groups of the first `n` policies: one per key that occurs, in
/// ascending order of the keys, each holding what its policies give it.
pub open spec fn groups_of(g: Seq<FrequencyGroup>, s: Seq<PolicyFrequency>, n: nat) -> bool {
    &&& forall|j: int| 0 <= j < g.len() ==> group_matches(#[trigger] g[j], s, n)
    &&& forall|j: int| 0 <= j < g.len() ==> has_key(s, n as int, #[trigger] g[j].key@)
    &&& forall|m: int| 0 <= m < n ==> #[trigger] keys(g).contains(s[m].key@)
    &&& texts_ascending(keys(g))
    &&& keys(g).no_duplicates()
}

proof fn lemma_khz_absent(s: Seq<PolicyFrequency>, n: nat, k: Seq<char>)
    requires
        n <= s.len(),
        !has_key(s, n as int, k),
    ensures
        khz_for(s, n, k) == Seq::<u64>::empty(),
    decreases n,
{
    if n > 0 {
        assert(s[n - 1].key@ != k);
        assert(!has_key(s, n - 1, k)) by {
            if has_key(s, n - 1, k) {
                let i = choose|i: int| #![trigger s[i]] 0 <= i < n - 1 && s[i].key@ == k;
                assert(0 <= i < n && s[i].key@ == k);
            }
        }
        lemma_khz_absent(s, (n - 1) as nat, k);
    }
}

/// A group whose key the next policy does not have keeps matching.
proof fn lemma_other_group(g: FrequencyGroup, s: Seq<PolicyFrequency>, n: nat)
    requires
        n < s.len(),
        group_matches(g, s, n),
        has_key(s, n as int, g.key@),
        s[n as int].key@ != g.key@,
    ensures
        group_matches(g, s, n + 1),
        has_key(s, n as int + 1, g.key@),
{
    let k = g.key@;
    assert(khz_for(s, n + 1, k) == khz_for(s, n, k));
    assert(first_label(s, n + 1, k) == first_label(s, n, k));
    assert forall|p: Seq<char>| #[trigger] policy_named(s, n as int + 1, k, p) <==> policy_named(s, n as int, k, p) by {
        if policy_named(s, n as int + 1, k, p) {
            let i = choose|i: int| #![trigger s[i]] 0 <= i < n + 1 && s[i].key@ == k && s[i].policy@ == p;
            assert(i < n);
        }
    }
    assert forall|c: u32| #[trigger] cpu_listed(s, n as int + 1, k, c) <==> cpu_listed(s, n as int, k, c) by {
        if cpu_listed(s, n as int + 1, k, c) {
            let i = choose|i: int| #![trigger s[i]] 0 <= i < n + 1 && s[i].key@ == k && s[i].cpus@.contains(c);
            assert(i < n);
        }
    }
    let i = choose|i: int| #![trigger s[i]] 0 <= i < n && s[i].key@ == k;
    assert(0 <= i < n + 1 && s[i].key@ == k);
}

/// Adds `x` to an ascending list of distinct strings, keeping it so.
fn insert_text(v: &mut Vec<String>, x: String)
    requires
        texts_ascending(texts(old(v)@)),
        texts(old(v)@).no_duplicates(),
    ensures
        texts_ascending(texts(final(v)@)),
        texts(final(v)@).no_duplicates(),
        forall|y: Seq<char>| #[trigger] texts(final(v)@).contains(y) <==> (texts(old(v)@).contains(y) || y == x@),
{
    let ghost old_t = texts(v@);
    let mut i: usize = 0;
    while i < v.len()
        invariant
            i <= v@.len(),
            v@ == old(v)@,
            old_t == texts(v@),
            texts_ascending(old_t),
            old_t.no_duplicates(),
            forall|j: int| 0 <= j < i ==> old_t[j] != x@,
        decreases v@.len() - i,
    {
        if text_order(v[i].as_str(), x.as_str()) == 0 {
            proof {
                lemma_lex_order_antisymmetric(v@[i as int]@, x@);
                assert(old_t[i as int] == x@);
            }
            return;
        }
        proof {
            lemma_lex_order_antisymmetric(v@[i as int]@, x@);
            assert(old_t[i as int] == v@[i as int]@);
        }
        i += 1;
    }
    assert(!old_t.contains(x@));
    let mut p: usize = 0;
    while p < v.len() && text_order(x.as_str(), v[p].as_str()) >= 0
        invariant
            p <= v@.len(),
            v@ == old(v)@,
            old_t == texts(v@),
            texts_ascending(old_t),
            old_t.no_duplicates(),
            !old_t.contains(x@),
            forall|j: int| 0 <= j < p ==> lex_order(#[trigger] old_t[j], x@) < 0,
        decreases v@.len() - p,
    {
        proof {
            lemma_lex_order_antisymmetric(x@, v@[p as int]@);
            assert(old_t[p as int] == v@[p as int]@);
            assert(old_t[p as int] != x@);
        }
        p += 1;
    }
    proof {
        if p < v@.len() {
            assert(old_t[p as int] == v@[p as int]@);
            assert(lex_order(x@, old_t[p as int]) < 0);
        }
    }
    v.insert(p, x);
    let ghost new_t = texts(v@);
    assert(new_t =~= old_t.insert(p as int, x@));
    assert forall|i: int, j: int| 0 <= i && j == i + 1 && j < new_t.len() implies lex_order(
        #[trigger] new_t[i],
        #[trigger] new_t[j],
    ) < 0 by {
        if j < p {
            assert(new_t[i] == old_t[i] && new_t[j] == old_t[j]);
        } else if j == p {
            assert(new_t[i] == old_t[i] && new_t[j] == x@);
        } else if i == p {
            assert(new_t[i] == x@ && new_t[j] == old_t[i]);
        } else {
            assert(new_t[i] == old_t[i - 1] && new_t[j] == old_t[j - 1]);
        }
    }
    assert forall|y: Seq<char>| #[trigger] new_t.contains(y) <==> (old_t.contains(y) || y == x@) by {
        if new_t.contains(y) {
            let k = choose|k: int| 0 <= k < new_t.len() && new_t[k] == y;
            if k < p {
                assert(old_t[k] == y);
            } else if k > p {
                assert(old_t[k - 1] == y);
            }
        }
        if old_t.contains(y) {
            let k = choose|k: int| 0 <= k < old_t.len() && old_t[k] == y;
            if k < p {
                assert(new_t[k] == y);
            } else {
                assert(new_t[k + 1] == y);
            }
        }
        if y == x@ {
            assert(new_t[p as int] == y);
        }
    }
    assert(new_t.no_duplicates()) by {
        assert forall|a: int, b: int| 0 <= a < new_t.len() && 0 <= b < new_t.len() && a != b implies new_t[a]
            != new_t[b] by {
            if a == p {
                if b < p {
                    assert(old_t.contains(new_t[b]));
                } else {
                    assert(new_t[b] == old_t[b - 1]);
                }
            } else if b == p {
                if a < p {
                    assert(new_t[a] == old_t[a]);
                } else {
                    assert(new_t[a] == old_t[a - 1]);
                }
            } else {
                let oa = if a < p { a } else { a - 1 };
                let ob = if b < p { b } else { b - 1 };
                assert(new_t[a] == old_t[oa] && new_t[b] == old_t[ob]);
            }
        }
    }
}

/// Adds each of `cpus` to an increasing list.
fn insert_all(v: &mut Vec<u32>, cpus: &Vec<u32>)
    requires
        strictly_sorted(old(v)@),
    ensures
        strictly_sorted(final(v)@),
        forall|c: u32| #[trigger] final(v)@.contains(c) <==> (old(v)@.contains(c) || cpus@.contains(c)),
{
    let mut i: usize = 0;
    while i < cpus.len()
        invariant
            i <= cpus@.len(),
            strictly_sorted(v@),
            forall|c: u32| #[trigger] v@.contains(c) <==> (old(v)@.contains(c) || exists|k: int| 0 <= k < i
                && #[trigger] cpus@[k] == c),
        decreases cpus@.len() - i,
    {
        let x = cpus[i];
        insert_sorted(v, x);
        assert forall|c: u32| #[trigger] v@.contains(c) <==> (old(v)@.contains(c) || exists|k: int| 0 <= k < i + 1
            && #[trigger] cpus@[k] == c) by {
            if c == x {
                assert(cpus@[i as int] == c);
            }
        }
        i += 1;
    }
}

/// Puts a group with a new key where its key belongs among the groups.
fn insert_group(groups: &mut Vec<FrequencyGroup>, g: FrequencyGroup) -> (q: usize)
    requires
        texts_ascending(keys(old(groups)@)),
        keys(old(groups)@).no_duplicates(),
        !keys(old(groups)@).contains(g.key@),
    ensures
        q <= old(groups)@.len(),
        final(groups)@ == old(groups)@.insert(q as int, g),
        texts_ascending(keys(final(groups)@)),
        keys(final(groups)@).no_duplicates(),
{
    let ghost old_k = keys(groups@);
    let mut q: usize = 0;
    while q < groups.len() && text_order(g.key.as_str(), groups[q].key.as_str()) >= 0
        invariant
            q <= groups@.len(),
            groups@ == old(groups)@,
            old_k == keys(groups@),
            !old_k.contains(g.key@),
            forall|j: int| 0 <= j < q ==> lex_order(#[trigger] old_k[j], g.key@) < 0,
        decreases groups@.len() - q,
    {
        proof {
            lemma_lex_order_antisymmetric(g.key@, groups@[q as int].key@);
            assert(old_k[q as int] == groups@[q as int].key@);
            assert(old_k[q as int] != g.key@);
        }
        q += 1;
    }
    proof {
        if q < groups@.len() {
            assert(old_k[q as int] == groups@[q as int].key@);
            assert(lex_order(g.key@, old_k[q as int]) < 0);
        }
    }
    groups.insert(q, g);
    let ghost new_k = keys(groups@);
    assert(new_k =~= old_k.insert(q as int, g.key@));
    assert forall|i: int, j: int| 0 <= i && j == i + 1 && j < new_k.len() implies lex_order(
        #[trigger] new_k[i],
        #[trigger] new_k[j],
    ) < 0 by {
        if j < q {
            assert(new_k[i] == old_k[i] && new_k[j] == old_k[j]);
        } else if j == q {
            assert(new_k[i] == old_k[i]);
        } else if i == q {
            assert(new_k[j] == old_k[i]);
        } else {
            assert(new_k[i] == old_k[i - 1] && new_k[j] == old_k[j - 1]);
        }
    }
    assert(new_k.no_duplicates()) by {
        assert forall|a: int, b: int| 0 <= a < new_k.len() && 0 <= b < new_k.len() && a != b implies new_k[a]
            != new_k[b] by {
            if a == q {
                if b < q {
                    assert(old_k.contains(new_k[b]));
                } else {
                    assert(new_k[b] == old_k[b - 1]);
                }
            } else if b == q {
                if a < q {
                    assert(new_k[a] == old_k[a]);
                } else {
                    assert(new_k[a] == old_k[a - 1]);
                }
            } else {
                let oa = if a < q { a } else { a - 1 };
                let ob = if b < q { b } else { b - 1 };
                assert(new_k[a] == old_k[oa] && new_k[b] == old_k[ob]);
            }
        }
    }
    q
}

/// The group of a policy whose key no earlier policy has.
fn new_group(p: &PolicyFrequency) -> (g: FrequencyGroup)
    ensures
        g.key@ == p.key@,
        g.label@ == p.label@,
        g.khz@ == seq![p.khz],
        texts(g.policies@) == seq![p.policy@],
        strictly_sorted(g.cpus@),
        forall|c: u32| #[trigger] g.cpus@.contains(c) <==> p.cpus@.contains(c),
{
    let mut khz: Vec<u64> = Vec::new();
    khz.push(p.khz);
    let mut policies: Vec<String> = Vec::new();
    policies.push(p.policy.clone());
    let mut cpus: Vec<u32> = Vec::new();
    insert_all(&mut cpus, &p.cpus);
    assert(texts(policies@) =~= seq![p.policy@]);
    assert(khz@ =~= seq![p.khz]);
    FrequencyGroup { key: p.key.clone(), label: p.label.clone(), khz, policies, cpus }
}

/// The group a policy with a new key starts matches the policies so far.
proof fn lemma_new_group(g: FrequencyGroup, s: Seq<PolicyFrequency>, n: nat)
    requires
        n < s.len(),
        !has_key(s, n as int, s[n as int].key@),
        g.key@ == s[n as int].key@,
        g.label@ == s[n as int].label@,
        g.khz@ == seq![s[n as int].khz],
        texts(g.policies@) == seq![s[n as int].policy@],
        strictly_sorted(g.cpus@),
        forall|c: u32| #[trigger] g.cpus@.contains(c) <==> s[n as int].cpus@.contains(c),
    ensures
        group_matches(g, s, n + 1),
        has_key(s, n as int + 1, g.key@),
{
    let k = g.key@;
    lemma_khz_absent(s, n, k);
    assert(khz_for(s, n + 1, k) =~= seq![s[n as int].khz]);
    assert(first_label(s, n + 1, k) == s[n as int].label@);
    let t = texts(g.policies@);
    assert forall|p: Seq<char>| #[trigger] t.contains(p) <==> policy_named(s, n as int + 1, k, p) by {
        if policy_named(s, n as int + 1, k, p) {
            let i = choose|i: int| #![trigger s[i]] 0 <= i < n + 1 && s[i].key@ == k && s[i].policy@ == p;
            if i < n {
                assert(has_key(s, n as int, k));
            }
            assert(t[0] == p);
        }
        if t.contains(p) {
            assert(t[0] == p);
            assert(s[n as int].key@ == k && s[n as int].policy@ == p);
        }
    }
    assert forall|c: u32| #[trigger] g.cpus@.contains(c) <==> cpu_listed(s, n as int + 1, k, c) by {
        if cpu_listed(s, n as int + 1, k, c) {
            let i = choose|i: int| #![trigger s[i]] 0 <= i < n + 1 && s[i].key@ == k && s[i].cpus@.contains(c);
            if i < n {
                assert(has_key(s, n as int, k));
            }
        }
        if g.cpus@.contains(c) {
            assert(s[n as int].key@ == k && s[n as int].cpus@.contains(c));
        }
    }
    assert(texts_ascending(t));
    assert(t.no_duplicates());
    assert(s[n as int].key@ == k);
}

/// A group whose key the next policy has matches once the policy is added.
proof fn lemma_grown_group(old_g: FrequencyGroup, g: FrequencyGroup, s: Seq<PolicyFrequency>, n: nat)
    requires
        n < s.len(),
        group_matches(old_g, s, n),
        has_key(s, n as int, old_g.key@),
        s[n as int].key@ == old_g.key@,
        g.key@ == old_g.key@,
        g.label@ == old_g.label@,
        g.khz@ == old_g.khz@.push(s[n as int].khz),
        texts_ascending(texts(g.policies@)),
        texts(g.policies@).no_duplicates(),
        forall|y: Seq<char>| #[trigger] texts(g.policies@).contains(y) <==> (texts(old_g.policies@).contains(y)
            || y == s[n as int].policy@),
        strictly_sorted(g.cpus@),
        forall|c: u32| #[trigger] g.cpus@.contains(c) <==> (old_g.cpus@.contains(c) || s[n as int].cpus@.contains(c)),
    ensures
        group_matches(g, s, n + 1),
        has_key(s, n as int + 1, g.key@),
{
    let k = g.key@;
    assert(khz_for(s, n + 1, k) == khz_for(s, n, k).push(s[n as int].khz));
    assert(first_label(s, n + 1, k) == first_label(s, n, k));
    assert forall|p: Seq<char>| #[trigger] texts(g.policies@).contains(p) <==> policy_named(s, n as int + 1, k, p) by {
        if policy_named(s, n as int + 1, k, p) {
            let i = choose|i: int| #![trigger s[i]] 0 <= i < n + 1 && s[i].key@ == k && s[i].policy@ == p;
            if i < n {
                assert(policy_named(s, n as int, k, p));
                assert(texts(old_g.policies@).contains(p));
            }
        }
        if texts(g.policies@).contains(p) {
            if texts(old_g.policies@).contains(p) {
                assert(policy_named(s, n as int, k, p));
                let i = choose|i: int| #![trigger s[i]] 0 <= i < n && s[i].key@ == k && s[i].policy@ == p;
                assert(0 <= i < n + 1 && s[i].key@ == k && s[i].policy@ == p);
            } else {
                assert(s[n as int].key@ == k && s[n as int].policy@ == p);
            }
        }
    }
    assert forall|c: u32| #[trigger] g.cpus@.contains(c) <==> cpu_listed(s, n as int + 1, k, c) by {
        if cpu_listed(s, n as int + 1, k, c) {
            let i = choose|i: int| #![trigger s[i]] 0 <= i < n + 1 && s[i].key@ == k && s[i].cpus@.contains(c);
            if i < n {
                assert(cpu_listed(s, n as int, k, c));
                assert(old_g.cpus@.contains(c));
            }
        }
        if g.cpus@.contains(c) {
            if old_g.cpus@.contains(c) {
                assert(cpu_listed(s, n as int, k, c));
                let i = choose|i: int| #![trigger s[i]] 0 <= i < n && s[i].key@ == k && s[i].cpus@.contains(c);
                assert(0 <= i < n + 1 && s[i].key@ == k && s[i].cpus@.contains(c));
            } else {
                assert(s[n as int].key@ == k && s[n as int].cpus@.contains(c));
            }
        }
    }
    let i = choose|i: int| #![trigger s[i]] 0 <= i < n && s[i].key@ == k;
    assert(0 <= i < n + 1 && s[i].key@ == k);
}

/// Groups the policies' frequencies by key: one group per key, in
/// ascending order of the keys.
pub fn group_policy_frequencies(policies: &[PolicyFrequency]) -> (r: Vec<FrequencyGroup>)
    ensures
        groups_of(r@, policies@, policies@.len() as nat),
{
    let ghost s = policies@;
    let mut groups: Vec<FrequencyGroup> = Vec::new();
    let mut i: usize = 0;
    assert(keys(groups@) =~= Seq::<Seq<char>>::empty());
    while i < policies.len()
        invariant
            i <= s.len(),
            s == policies@,
            groups_of(groups@, s, i as nat),
        decreases s.len() - i,
    {
        let p = &policies[i];
        let ghost old_g = groups@;
        let ghost k = p.key@;
        assert(s[i as int] == *p);
        let mut j: usize = 0;
        while j < groups.len() && text_order(groups[j].key.as_str(), p.key.as_str()) != 0
            invariant
                j <= groups@.len(),
                groups@ == old_g,
                k == p.key@,
                forall|m: int| 0 <= m < j ==> #[trigger] old_g[m].key@ != k,
            decreases groups@.len() - j,
        {
            proof {
                lemma_lex_order_antisymmetric(groups@[j as int].key@, k);
            }
            j += 1;
        }
        if j < groups.len() {
            proof {
                lemma_lex_order_antisymmetric(groups@[j as int].key@, k);
            }
            let ghost og = groups@[j as int];
            assert(og.key@ == k);
            assert(keys(old_g)[j as int] == k);
            let mut g = groups.remove(j);
            assert(g == og);
            g.khz.push(p.khz);
            insert_text(&mut g.policies, p.policy.clone());
            insert_all(&mut g.cpus, &p.cpus);
            proof {
                assert(group_matches(og, s, i as nat));
                assert(has_key(s, i as int, og.key@));
                lemma_grown_group(og, g, s, i as nat);
            }
            groups.insert(j, g);
            proof {
                let ng = groups@;
                assert(ng =~= old_g.update(j as int, g));
                assert(keys(ng) =~= keys(old_g));
                assert forall|m: int| 0 <= m < ng.len() implies group_matches(#[trigger] ng[m], s, (i + 1) as nat) && has_key(
                    s,
                    i + 1,
                    ng[m].key@,
                ) by {
                    if m != j {
                        assert(ng[m] == old_g[m]);
                        assert(keys(old_g)[m] == old_g[m].key@);
                        assert(old_g[m].key@ != k);
                        assert(group_matches(old_g[m], s, i as nat));
                        assert(has_key(s, i as int, old_g[m].key@));
                        lemma_other_group(old_g[m], s, i as nat);
                    }
                }
                assert forall|m: int| 0 <= m < i + 1 implies #[trigger] keys(ng).contains(s[m].key@) by {
                    if m == i {
                        assert(keys(ng)[j as int] == k);
                    }
                }
            }
        } else {
            assert(!keys(old_g).contains(k)) by {
                if keys(old_g).contains(k) {
                    let m = choose|m: int| 0 <= m < keys(old_g).len() && keys(old_g)[m] == k;
                    assert(old_g[m].key@ == k);
                }
            }
            assert(!has_key(s, i as int, k)) by {
                if has_key(s, i as int, k) {
                    let m = choose|m: int| #![trigger s[m]] 0 <= m < i && s[m].key@ == k;
                    assert(keys(old_g).contains(s[m].key@));
                }
            }
            let g = new_group(p);
            proof {
                lemma_new_group(g, s, i as nat);
            }
            let q = insert_group(&mut groups, g);
            proof {
                let ng = groups@;
                assert forall|m: int| 0 <= m < ng.len() implies group_matches(#[trigger] ng[m], s, (i + 1) as nat) && has_key(
                    s,
                    i + 1,
                    ng[m].key@,
                ) by {
                    if m != q {
                        let om = if m < q { m } else { m - 1 };
                        assert(ng[m] == old_g[om]);
                        assert(keys(old_g)[om] == old_g[om].key@);
                        assert(old_g[om].key@ != k);
                        assert(group_matches(old_g[om], s, i as nat));
                        assert(has_key(s, i as int, old_g[om].key@));
                        lemma_other_group(old_g[om], s, i as nat);
                    }
                }
                assert forall|m: int| 0 <= m < i + 1 implies #[trigger] keys(ng).contains(s[m].key@) by {
                    if m == i {
                        assert(keys(ng)[q as int] == k);
                    } else {
                        assert(keys(old_g).contains(s[m].key@));
                        let t = choose|t: int| 0 <= t < keys(old_g).len() && keys(old_g)[t] == s[m].key@;
                        if t < q {
                            assert(keys(ng)[t] == s[m].key@);
                        } else {
                            assert(keys(ng)[t + 1] == s[m].key@);
                        }
                    }
                }
            }
        }
        i += 1;
    }
    groups
}

} // verus!

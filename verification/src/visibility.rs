//! Which sensors and devices the user hid, collapsed or marked as favourite.
use vstd::prelude::*;
use crate::text::{chars_eq, chars_lt, chars_of, lemma_lex_irreflexive, lemma_lex_transitive, lemma_lex_trichotomy, lex_lt};

verus! {

pub open spec fn str_views(v: Seq<String>) -> Seq<Seq<char>> {
    v.map_values(|s: String| s@)
}

/// A set of keys without repeats.
pub struct KeySet {
    items: Vec<String>,
}

impl View for KeySet {
    type V = Set<Seq<char>>;

    closed spec fn view(&self) -> Set<Seq<char>> {
        str_views(self.items@).to_set()
    }
}

impl KeySet {
    #[verifier::type_invariant]
    closed spec fn inv(self) -> bool {
        str_views(self.items@).no_duplicates()
    }

    pub fn new() -> (r: KeySet)
        ensures
            r@ == Set::<Seq<char>>::empty(),
    {
        let r = KeySet { items: Vec::new() };
        assert(r@ =~= Set::<Seq<char>>::empty());
        r
    }

    fn position(&self, key: &str) -> (r: Option<usize>)
        ensures
            r matches Some(i) ==> i < self.items@.len() && str_views(self.items@)[i as int] == key@,
            r is None ==> !self@.contains(key@),
    {
        let k = chars_of(key);
        let mut i: usize = 0;
        while i < self.items.len()
            invariant
                i <= self.items@.len(),
                k@ == key@,
                forall|j: int| 0 <= j < i ==> str_views(self.items@)[j] != key@,
            decreases self.items.len() - i,
        {
            let c = chars_of(self.items[i].as_str());
            if chars_eq(&c, &k) {
                return Some(i);
            }
            i += 1;
        }
        None
    }

    pub fn contains(&self, key: &str) -> (r: bool)
        ensures
            r == self@.contains(key@),
    {
        match self.position(key) {
            Some(i) => {
                assert(str_views(self.items@).contains(key@));
                true
            },
            None => false,
        }
    }

    /// Removes `key` when present, else adds it; returns whether it is now present.
    pub fn toggle(&mut self, key: &str) -> (r: bool)
        ensures
            r == !old(self)@.contains(key@),
            final(self)@ == (if r { old(self)@.insert(key@) } else { old(self)@.remove(key@) }),
    {
        proof {
            use_type_invariant(&*self);
        }
        match self.position(key) {
            Some(i) => {
                let ghost before = str_views(self.items@);
                proof {
                    assert(before.contains(key@));
                }
                let mut items: Vec<String> = Vec::new();
                std::mem::swap(&mut items, &mut self.items);
                items.remove(i);
                let ghost after = str_views(items@);
                proof {
                    assert(after =~= before.remove(i as int));
                    assert(after.no_duplicates());
                    assert forall|k: Seq<char>| after.contains(k) <==> (before.contains(k) && k != key@) by {
                        if after.contains(k) {
                            let j = choose|j: int| 0 <= j < after.len() && after[j] == k;
                            if j < i {
                                assert(before[j] == k);
                            } else {
                                assert(before[j + 1] == k);
                            }
                        }
                        if before.contains(k) && k != key@ {
                            let j = choose|j: int| 0 <= j < before.len() && before[j] == k;
                            if j < i {
                                assert(after[j] == k);
                            } else {
                                assert(after[j - 1] == k);
                            }
                        }
                    }
                    assert(after.to_set() =~= before.to_set().remove(key@));
                }
                self.items = items;
                false
            },
            None => {
                let ghost before = str_views(self.items@);
                let mut items: Vec<String> = Vec::new();
                std::mem::swap(&mut items, &mut self.items);
                items.push(crate::text::owned(key));
                let ghost after = str_views(items@);
                proof {
                    assert(after =~= before.push(key@));
                    assert forall|a: int, b: int| 0 <= a < after.len() && 0 <= b < after.len() && a != b implies after[a] != after[b] by {
                        if a == before.len() {
                            assert(before.contains(after[b]));
                        } else if b == before.len() {
                            assert(before.contains(after[a]));
                        }
                    }
                    assert forall|k: Seq<char>| after.contains(k) <==> (before.contains(k) || k == key@) by {
                        if after.contains(k) {
                            let j = choose|j: int| 0 <= j < after.len() && after[j] == k;
                            if j < before.len() {
                                assert(before[j] == k);
                            }
                        }
                        if before.contains(k) {
                            let j = choose|j: int| 0 <= j < before.len() && before[j] == k;
                            assert(after[j] == k);
                        }
                        if k == key@ {
                            assert(after[before.len() as int] == k);
                        }
                    }
                    assert(after.to_set() =~= before.to_set().insert(key@));
                }
                self.items = items;
                true
            },
        }
    }

    pub fn clear(&mut self)
        ensures
            final(self)@ == Set::<Seq<char>>::empty(),
    {
        self.items = Vec::new();
        assert(str_views(self.items@).to_set() =~= Set::<Seq<char>>::empty());
    }
}

// ---------------------------------------------------------------------------
// Labels by key, in key order
// ---------------------------------------------------------------------------
pub open spec fn entry_views(v: Seq<(String, String)>) -> Seq<(Seq<char>, Seq<char>)> {
    v.map_values(|p: (String, String)| (p.0@, p.1@))
}

/// Entries in strictly increasing key order.
pub open spec fn keys_sorted(s: Seq<(Seq<char>, Seq<char>)>) -> bool {
    forall|i: int, j: int| 0 <= i < j < s.len() ==> lex_lt(#[trigger] s[i].0, #[trigger] s[j].0)
}

/// A position of key `k`.
pub open spec fn key_index(s: Seq<(Seq<char>, Seq<char>)>, k: Seq<char>) -> int {
    choose|i: int| 0 <= i < s.len() && #[trigger] s[i].0 == k
}

/// The map that entries with distinct keys describe.
pub open spec fn entries_map(s: Seq<(Seq<char>, Seq<char>)>) -> Map<Seq<char>, Seq<char>> {
    Map::new(
        |k: Seq<char>| exists|i: int| 0 <= i < s.len() && #[trigger] s[i].0 == k,
        |k: Seq<char>| s[key_index(s, k)].1,
    )
}

proof fn lemma_sorted_unique(s: Seq<(Seq<char>, Seq<char>)>, i: int, j: int)
    requires
        keys_sorted(s),
        0 <= i < s.len(),
        0 <= j < s.len(),
        s[i].0 == s[j].0,
    ensures
        i == j,
{
    if i < j {
        assert(lex_lt(s[i].0, s[j].0));
        lemma_lex_irreflexive(s[i].0);
    } else if j < i {
        assert(lex_lt(s[j].0, s[i].0));
        lemma_lex_irreflexive(s[i].0);
    }
}

proof fn lemma_entries_map_at(s: Seq<(Seq<char>, Seq<char>)>, i: int)
    requires
        keys_sorted(s),
        0 <= i < s.len(),
    ensures
        entries_map(s).contains_key(s[i].0),
        entries_map(s)[s[i].0] == s[i].1,
{
    let k = s[i].0;
    assert(exists|j: int| 0 <= j < s.len() && #[trigger] s[j].0 == k);
    let j = key_index(s, k);
    lemma_sorted_unique(s, i, j);
}

/// Labels by key, listed in key order.
pub struct LabelMap {
    entries: Vec<(String, String)>,
}

impl View for LabelMap {
    type V = Map<Seq<char>, Seq<char>>;

    closed spec fn view(&self) -> Map<Seq<char>, Seq<char>> {
        entries_map(entry_views(self.entries@))
    }
}

impl LabelMap {
    #[verifier::type_invariant]
    closed spec fn inv(self) -> bool {
        keys_sorted(entry_views(self.entries@))
    }

    pub fn new() -> (r: LabelMap)
        ensures
            r@ == Map::<Seq<char>, Seq<char>>::empty(),
    {
        let r = LabelMap { entries: Vec::new() };
        assert(r@ =~= Map::<Seq<char>, Seq<char>>::empty());
        r
    }

    /// The first position whose key is not below `key`.
    fn lower_bound(&self, key: &[char]) -> (r: usize)
        ensures
            r <= self.entries@.len(),
            forall|i: int| 0 <= i < r ==> lex_lt(#[trigger] entry_views(self.entries@)[i].0, key@),
            r < self.entries@.len() ==> !lex_lt(entry_views(self.entries@)[r as int].0, key@),
    {
        let mut p: usize = 0;
        while p < self.entries.len() && chars_lt(&chars_of(self.entries[p].0.as_str()), key)
            invariant
                p <= self.entries@.len(),
                forall|i: int| 0 <= i < p ==> lex_lt(#[trigger] entry_views(self.entries@)[i].0, key@),
            decreases self.entries.len() - p,
        {
            p += 1;
        }
        p
    }

    /// Where `key` is, or where it would go.
    fn locate(&self, key: &[char]) -> (r: (usize, bool))
        ensures
            r.0 <= self.entries@.len(),
            r.1 ==> r.0 < self.entries@.len() && entry_views(self.entries@)[r.0 as int].0 == key@,
            forall|i: int| 0 <= i < r.0 ==> lex_lt(#[trigger] entry_views(self.entries@)[i].0, key@),
            !r.1 && r.0 < self.entries@.len() ==> lex_lt(key@, entry_views(self.entries@)[r.0 as int].0),
            r.1 == self@.contains_key(key@),
    {
        proof {
            use_type_invariant(self);
        }
        let p = self.lower_bound(key);
        let ghost s = entry_views(self.entries@);
        if p < self.entries.len() {
            let kp = chars_of(self.entries[p].0.as_str());
            let found = chars_eq(&kp, key);
            proof {
                lemma_lex_trichotomy(kp@, key@);
                self.lemma_found_iff(key@, p as int, found);
            }
            (p, found)
        } else {
            proof {
                self.lemma_found_iff(key@, p as int, false);
            }
            (p, false)
        }
    }

    proof fn lemma_found_iff(&self, key: Seq<char>, p: int, found: bool)
        requires
            keys_sorted(entry_views(self.entries@)),
            0 <= p <= self.entries@.len(),
            forall|i: int| 0 <= i < p ==> lex_lt(#[trigger] entry_views(self.entries@)[i].0, key),
            found ==> p < self.entries@.len() && entry_views(self.entries@)[p].0 == key,
            !found && p < self.entries@.len() ==> lex_lt(key, entry_views(self.entries@)[p].0),
        ensures
            found == self@.contains_key(key),
    {
        let s = entry_views(self.entries@);
        if found {
            lemma_entries_map_at(s, p);
        } else if self@.contains_key(key) {
            let j = choose|j: int| 0 <= j < s.len() && #[trigger] s[j].0 == key;
            if j < p {
                lemma_lex_irreflexive(key);
            } else {
                if j > p {
                    lemma_lex_transitive(key, s[p].0, s[j].0);
                }
                lemma_lex_irreflexive(key);
            }
        }
    }

    pub fn contains_key(&self, key: &str) -> (r: bool)
        ensures
            r == self@.contains_key(key@),
    {
        let k = chars_of(key);
        self.locate(&k).1
    }

    /// Sets the label of `key`.
    pub fn insert(&mut self, key: &str, label: &str)
        ensures
            final(self)@ == old(self)@.insert(key@, label@),
    {
        proof {
            use_type_invariant(&*self);
        }
        let k = chars_of(key);
        let (p, found) = self.locate(&k);
        let ghost s = entry_views(self.entries@);
        let ghost e = (key@, label@);
        let mut entries: Vec<(String, String)> = Vec::new();
        std::mem::swap(&mut entries, &mut self.entries);
        let item = (crate::text::owned(key), crate::text::owned(label));
        if found {
            entries.set(p, item);
            proof {
                let n = entry_views(entries@);
                assert(n =~= s.update(p as int, e));
                assert(keys_sorted(n));
                lemma_map_update(s, p as int, e);
            }
        } else {
            entries.insert(p, item);
            proof {
                let n = entry_views(entries@);
                assert(n =~= s.insert(p as int, e));
                lemma_map_insert(s, p as int, e);
            }
        }
        self.entries = entries;
    }

    /// Removes `key`; returns whether it was there.
    pub fn remove(&mut self, key: &str) -> (r: bool)
        ensures
            r == old(self)@.contains_key(key@),
            final(self)@ == old(self)@.remove(key@),
    {
        proof {
            use_type_invariant(&*self);
        }
        let k = chars_of(key);
        let (p, found) = self.locate(&k);
        let ghost s = entry_views(self.entries@);
        if found {
            let mut entries: Vec<(String, String)> = Vec::new();
            std::mem::swap(&mut entries, &mut self.entries);
            entries.remove(p);
            proof {
                let n = entry_views(entries@);
                assert(n =~= s.remove(p as int));
                lemma_map_remove(s, p as int);
            }
            self.entries = entries;
        } else {
            proof {
                assert(entries_map(s).remove(key@) =~= entries_map(s));
            }
        }
        found
    }

    pub fn clear(&mut self)
        ensures
            final(self)@ == Map::<Seq<char>, Seq<char>>::empty(),
    {
        self.entries = Vec::new();
        assert(entries_map(entry_views(self.entries@)) =~= Map::<Seq<char>, Seq<char>>::empty());
    }

    /// The entries, in increasing key order.
    pub fn items(&self) -> (r: Vec<(String, String)>)
        ensures
            keys_sorted(entry_views(r@)),
            entries_map(entry_views(r@)) == self@,
    {
        proof {
            use_type_invariant(self);
        }
        let mut r: Vec<(String, String)> = Vec::new();
        let mut i: usize = 0;
        while i < self.entries.len()
            invariant
                i <= self.entries@.len(),
                entry_views(r@) == entry_views(self.entries@).take(i as int),
            decreases self.entries.len() - i,
        {
            let item = (self.entries[i].0.clone(), self.entries[i].1.clone());
            let ghost before = r@;
            r.push(item);
            proof {
                assert(entry_views(r@) =~= entry_views(before).push((item.0@, item.1@)));
                assert(entry_views(self.entries@)[i as int] == (self.entries@[i as int].0@, self.entries@[i as int].1@));
                assert(entry_views(r@) =~= entry_views(self.entries@).take(i + 1));
            }
            i += 1;
        }
        assert(entry_views(self.entries@).take(i as int) =~= entry_views(self.entries@));
        r
    }
}

proof fn lemma_map_update(s: Seq<(Seq<char>, Seq<char>)>, p: int, e: (Seq<char>, Seq<char>))
    requires
        keys_sorted(s),
        0 <= p < s.len(),
        s[p].0 == e.0,
    ensures
        keys_sorted(s.update(p, e)),
        entries_map(s.update(p, e)) == entries_map(s).insert(e.0, e.1),
{
    let n = s.update(p, e);
    assert(keys_sorted(n)) by {
        assert forall|i: int, j: int| 0 <= i < j < n.len() implies lex_lt(#[trigger] n[i].0, #[trigger] n[j].0) by {
            assert(n[i].0 == s[i].0);
            assert(n[j].0 == s[j].0);
        }
    }
    let m = entries_map(s).insert(e.0, e.1);
    assert forall|x: Seq<char>| #[trigger] entries_map(n).contains_key(x) <==> m.contains_key(x) by {
        if entries_map(n).contains_key(x) {
            let j = choose|j: int| 0 <= j < n.len() && #[trigger] n[j].0 == x;
            if j != p {
                lemma_entries_map_at(s, j);
            }
        }
        if m.contains_key(x) && x != e.0 {
            let j = choose|j: int| 0 <= j < s.len() && #[trigger] s[j].0 == x;
            assert(n[j].0 == x);
        }
        if x == e.0 {
            assert(n[p].0 == x);
        }
    }
    assert forall|x: Seq<char>| entries_map(n).contains_key(x) implies #[trigger] entries_map(n)[x] == m[x] by {
        let j = choose|j: int| 0 <= j < n.len() && #[trigger] n[j].0 == x;
        lemma_entries_map_at(n, j);
        if j != p {
            assert(n[j] == s[j]);
            lemma_entries_map_at(s, j);
            if x == e.0 {
                lemma_sorted_unique(s, j, p);
            }
        }
    }
    assert(entries_map(n) =~= m);
}

proof fn lemma_map_insert(s: Seq<(Seq<char>, Seq<char>)>, p: int, e: (Seq<char>, Seq<char>))
    requires
        keys_sorted(s),
        0 <= p <= s.len(),
        forall|i: int| 0 <= i < p ==> lex_lt(#[trigger] s[i].0, e.0),
        p < s.len() ==> lex_lt(e.0, s[p].0),
    ensures
        keys_sorted(s.insert(p, e)),
        entries_map(s.insert(p, e)) == entries_map(s).insert(e.0, e.1),
{
    let n = s.insert(p, e);
    assert forall|i: int, j: int| 0 <= i < j < n.len() implies lex_lt(#[trigger] n[i].0, #[trigger] n[j].0) by {
        if j < p {
        } else if j == p {
        } else if i < p {
            assert(n[j] == s[j - 1]);
            if j - 1 > p {
                assert(lex_lt(s[p].0, s[j - 1].0));
                lemma_lex_transitive(e.0, s[p].0, s[j - 1].0);
            }
            lemma_lex_transitive(s[i].0, e.0, s[j - 1].0);
        } else if i == p {
            assert(n[j] == s[j - 1]);
            if j - 1 > p {
                assert(lex_lt(s[p].0, s[j - 1].0));
                lemma_lex_transitive(e.0, s[p].0, s[j - 1].0);
            }
        } else {
            assert(n[j] == s[j - 1]);
            assert(n[i] == s[i - 1]);
        }
    }
    let m = entries_map(s).insert(e.0, e.1);
    assert forall|x: Seq<char>| #[trigger] entries_map(n).contains_key(x) <==> m.contains_key(x) by {
        if entries_map(n).contains_key(x) {
            let j = choose|j: int| 0 <= j < n.len() && #[trigger] n[j].0 == x;
            if j < p {
                assert(s[j].0 == x);
            } else if j > p {
                assert(s[j - 1].0 == x);
            }
        }
        if m.contains_key(x) && x != e.0 {
            let j = choose|j: int| 0 <= j < s.len() && #[trigger] s[j].0 == x;
            if j < p {
                assert(n[j].0 == x);
            } else {
                assert(n[j + 1].0 == x);
            }
        }
        if x == e.0 {
            assert(n[p].0 == x);
        }
    }
    assert forall|x: Seq<char>| entries_map(n).contains_key(x) implies #[trigger] entries_map(n)[x] == m[x] by {
        let j = choose|j: int| 0 <= j < n.len() && #[trigger] n[j].0 == x;
        lemma_entries_map_at(n, j);
        if j < p {
            lemma_entries_map_at(s, j);
            if x == e.0 {
                lemma_lex_irreflexive(x);
            }
        } else if j > p {
            lemma_entries_map_at(s, j - 1);
            if x == e.0 {
                if j - 1 > p {
                    lemma_lex_transitive(e.0, s[p].0, s[j - 1].0);
                }
                lemma_lex_irreflexive(x);
            }
        }
    }
    assert(entries_map(n) =~= m);
}

proof fn lemma_map_remove(s: Seq<(Seq<char>, Seq<char>)>, p: int)
    requires
        keys_sorted(s),
        0 <= p < s.len(),
    ensures
        keys_sorted(s.remove(p)),
        entries_map(s.remove(p)) == entries_map(s).remove(s[p].0),
{
    let n = s.remove(p);
    let k = s[p].0;
    assert forall|i: int, j: int| 0 <= i < j < n.len() implies lex_lt(#[trigger] n[i].0, #[trigger] n[j].0) by {
        let si = if i < p { i } else { i + 1 };
        let sj = if j < p { j } else { j + 1 };
        assert(n[i] == s[si]);
        assert(n[j] == s[sj]);
    }
    let m = entries_map(s).remove(k);
    assert forall|x: Seq<char>| #[trigger] entries_map(n).contains_key(x) <==> m.contains_key(x) by {
        if entries_map(n).contains_key(x) {
            let j = choose|j: int| 0 <= j < n.len() && #[trigger] n[j].0 == x;
            let sj = if j < p { j } else { j + 1 };
            assert(s[sj].0 == x);
            if x == k {
                lemma_sorted_unique(s, sj, p);
            }
        }
        if m.contains_key(x) {
            let j = choose|j: int| 0 <= j < s.len() && #[trigger] s[j].0 == x;
            if j < p {
                assert(n[j].0 == x);
            } else if j > p {
                assert(n[j - 1].0 == x);
            }
        }
    }
    assert forall|x: Seq<char>| entries_map(n).contains_key(x) implies #[trigger] entries_map(n)[x] == m[x] by {
        let j = choose|j: int| 0 <= j < n.len() && #[trigger] n[j].0 == x;
        let sj = if j < p { j } else { j + 1 };
        assert(n[j] == s[sj]);
        lemma_entries_map_at(n, j);
        lemma_entries_map_at(s, sj);
    }
    assert(entries_map(n) =~= m);
}

/// What the user hid (with the label shown for it), collapsed, or marked
/// as a favourite; the three are independent of each other.
pub struct VisibilityState {
    hidden: LabelMap,
    collapsed: KeySet,
    favorites: KeySet,
}

impl VisibilityState {
    pub closed spec fn hidden_view(&self) -> Map<Seq<char>, Seq<char>> {
        self.hidden@
    }

    pub closed spec fn collapsed_view(&self) -> Set<Seq<char>> {
        self.collapsed@
    }

    pub closed spec fn favorites_view(&self) -> Set<Seq<char>> {
        self.favorites@
    }

    pub fn new() -> (r: VisibilityState)
        ensures
            r.hidden_view() == Map::<Seq<char>, Seq<char>>::empty(),
            r.collapsed_view() == Set::<Seq<char>>::empty(),
            r.favorites_view() == Set::<Seq<char>>::empty(),
    {
        VisibilityState { hidden: LabelMap::new(), collapsed: KeySet::new(), favorites: KeySet::new() }
    }

    /// Hides `key`, remembering the label to show for it.
    pub fn hide_key(&mut self, key: &str, label: &str)
        ensures
            final(self).hidden_view() == old(self).hidden_view().insert(key@, label@),
            final(self).collapsed_view() == old(self).collapsed_view(),
            final(self).favorites_view() == old(self).favorites_view(),
    {
        self.hidden.insert(key, label);
    }

    /// Shows `key` again; returns whether it was hidden.
    pub fn show(&mut self, key: &str) -> (r: bool)
        ensures
            r == old(self).hidden_view().contains_key(key@),
            final(self).hidden_view() == old(self).hidden_view().remove(key@),
            final(self).collapsed_view() == old(self).collapsed_view(),
            final(self).favorites_view() == old(self).favorites_view(),
    {
        self.hidden.remove(key)
    }

    /// Shows everything again.
    pub fn show_all(&mut self)
        ensures
            final(self).hidden_view() == Map::<Seq<char>, Seq<char>>::empty(),
            final(self).collapsed_view() == old(self).collapsed_view(),
            final(self).favorites_view() == old(self).favorites_view(),
    {
        self.hidden.clear();
    }

    pub fn is_hidden(&self, key: &str) -> (r: bool)
        ensures
            r == self.hidden_view().contains_key(key@),
    {
        self.hidden.contains_key(key)
    }

    /// The hidden keys and their labels, in key order.
    pub fn hidden_items(&self) -> (r: Vec<(String, String)>)
        ensures
            keys_sorted(entry_views(r@)),
            entries_map(entry_views(r@)) == self.hidden_view(),
    {
        self.hidden.items()
    }

    /// Collapses `key`, or expands it when collapsed; returns whether it is now collapsed.
    pub fn toggle_collapsed(&mut self, key: &str) -> (r: bool)
        ensures
            r == !old(self).collapsed_view().contains(key@),
            final(self).collapsed_view() == (if r {
                old(self).collapsed_view().insert(key@)
            } else {
                old(self).collapsed_view().remove(key@)
            }),
            final(self).hidden_view() == old(self).hidden_view(),
            final(self).favorites_view() == old(self).favorites_view(),
    {
        self.collapsed.toggle(key)
    }

    pub fn is_collapsed(&self, key: &str) -> (r: bool)
        ensures
            r == self.collapsed_view().contains(key@),
    {
        self.collapsed.contains(key)
    }

    /// Expands everything.
    pub fn expand_all(&mut self)
        ensures
            final(self).collapsed_view() == Set::<Seq<char>>::empty(),
            final(self).hidden_view() == old(self).hidden_view(),
            final(self).favorites_view() == old(self).favorites_view(),
    {
        self.collapsed.clear();
    }

    /// Marks `key` as a favourite, or unmarks it; returns whether it is now one.
    pub fn toggle_favorite(&mut self, key: &str) -> (r: bool)
        ensures
            r == !old(self).favorites_view().contains(key@),
            final(self).favorites_view() == (if r {
                old(self).favorites_view().insert(key@)
            } else {
                old(self).favorites_view().remove(key@)
            }),
            final(self).hidden_view() == old(self).hidden_view(),
            final(self).collapsed_view() == old(self).collapsed_view(),
    {
        self.favorites.toggle(key)
    }

    pub fn is_favorite(&self, key: &str) -> (r: bool)
        ensures
            r == self.favorites_view().contains(key@),
    {
        self.favorites.contains(key)
    }
}

impl Default for VisibilityState {
    fn default() -> (r: Self)
        ensures
            r.hidden_view() == Map::<Seq<char>, Seq<char>>::empty(),
            r.collapsed_view() == Set::<Seq<char>>::empty(),
            r.favorites_view() == Set::<Seq<char>>::empty(),
    {
        VisibilityState::new()
    }
}

/// Hiding, collapsing and marking favourites are independent: each changes
/// one of the three and keeps the others, and toggling twice restores a set.
pub proof fn law_toggle_twice_restores(set: Set<Seq<char>>, key: Seq<char>)
    ensures
        (if set.contains(key) { set.remove(key) } else { set.insert(key) }).contains(key) != set.contains(key),
        ({
            let once = if set.contains(key) { set.remove(key) } else { set.insert(key) };
            if once.contains(key) { once.remove(key) } else { once.insert(key) }
        }) == set,
{
    let once = if set.contains(key) { set.remove(key) } else { set.insert(key) };
    let twice = if once.contains(key) { once.remove(key) } else { once.insert(key) };
    assert(twice =~= set);
}

} // verus!

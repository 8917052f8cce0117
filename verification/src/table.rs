//! Keyed tables held as vectors of entries with distinct keys, viewed as maps.
use vstd::prelude::*;

verus! {

/// A key of a [`Table`]: comparable for equality and for a strict order on its view.
pub trait TableKey: View + Sized {
    /// The strict order in which keys are listed.
    spec fn key_lt(a: Self::V, b: Self::V) -> bool;

    proof fn lemma_key_lt_irreflexive(a: Self::V)
        ensures
            !Self::key_lt(a, a),
    ;

    proof fn lemma_key_lt_transitive(a: Self::V, b: Self::V, c: Self::V)
        requires
            Self::key_lt(a, b),
            Self::key_lt(b, c),
        ensures
            Self::key_lt(a, c),
    ;

    proof fn lemma_key_lt_total(a: Self::V, b: Self::V)
        ensures
            a == b || Self::key_lt(a, b) || Self::key_lt(b, a),
    ;

    fn same_key(&self, other: &Self) -> (r: bool)
        ensures
            r == (self@ == other@),
    ;

    fn key_less(&self, other: &Self) -> (r: bool)
        ensures
            r == Self::key_lt(self@, other@),
    ;

    fn copy_key(&self) -> (r: Self)
        ensures
            r@ == self@,
    ;
}

/// No key occurs twice.
pub open spec fn keys_distinct<A, B>(s: Seq<(A, B)>) -> bool {
    forall|i: int, j: int|
        0 <= i < s.len() && 0 <= j < s.len() && i != j ==> #[trigger] s[i].0 != #[trigger] s[j].0
}

/// Some entry has key `k`.
pub open spec fn has_key<A, B>(s: Seq<(A, B)>, k: A) -> bool {
    exists|i: int| 0 <= i < s.len() && #[trigger] s[i].0 == k
}

/// The map from each key to the value of its entry.
pub open spec fn entries_map<A, B>(s: Seq<(A, B)>) -> Map<A, B> {
    Map::new(|k: A| has_key(s, k), |k: A| s[choose|i: int| 0 <= i < s.len() && #[trigger] s[i].0 == k].1)
}

/// Keys strictly increase along the sequence.
pub open spec fn keys_sorted<K: TableKey, B>(s: Seq<(K::V, B)>) -> bool {
    forall|i: int, j: int| 0 <= i < j < s.len() ==> K::key_lt(#[trigger] s[i].0, #[trigger] s[j].0)
}

pub proof fn lemma_entry_in_map<A, B>(s: Seq<(A, B)>, i: int)
    requires
        keys_distinct(s),
        0 <= i < s.len(),
    ensures
        entries_map(s).contains_key(s[i].0),
        entries_map(s)[s[i].0] == s[i].1,
{
    let k = s[i].0;
    assert(has_key(s, k));
    let j = choose|j: int| 0 <= j < s.len() && #[trigger] s[j].0 == k;
    assert(s[j].0 == k);
    if j != i {
        assert(s[i].0 != s[j].0);
    }
}

pub proof fn lemma_empty_map<A, B>(s: Seq<(A, B)>)
    requires
        s.len() == 0,
    ensures
        entries_map(s) == Map::<A, B>::empty(),
{
    assert(entries_map(s) =~= Map::<A, B>::empty());
}

pub proof fn lemma_map_push<A, B>(s: Seq<(A, B)>, k: A, v: B)
    requires
        keys_distinct(s),
        !has_key(s, k),
    ensures
        keys_distinct(s.push((k, v))),
        entries_map(s.push((k, v))) == entries_map(s).insert(k, v),
{
    let t = s.push((k, v));
    assert forall|i: int, j: int|
        0 <= i < t.len() && 0 <= j < t.len() && i != j implies #[trigger] t[i].0 != #[trigger] t[j].0 by {
        if i < s.len() && j < s.len() {
            assert(s[i].0 != s[j].0);
        } else if i < s.len() {
            assert(s[i].0 != k);
        } else {
            assert(s[j].0 != k);
        }
    }
    let m = entries_map(s).insert(k, v);
    assert forall|x: A| #[trigger] m.contains_key(x) <==> entries_map(t).contains_key(x) by {
        if m.contains_key(x) && x != k {
            let i = choose|i: int| 0 <= i < s.len() && #[trigger] s[i].0 == x;
            assert(t[i].0 == x);
        }
        if entries_map(t).contains_key(x) && x != k {
            let i = choose|i: int| 0 <= i < t.len() && #[trigger] t[i].0 == x;
            assert(i < s.len());
            assert(s[i].0 == x);
        }
        if x == k {
            assert(t[s.len() as int].0 == k);
        }
    }
    assert forall|x: A| #[trigger] m.contains_key(x) implies m[x] == entries_map(t)[x] by {
        if x == k {
            lemma_entry_in_map(t, s.len() as int);
        } else {
            let i = choose|i: int| 0 <= i < s.len() && #[trigger] s[i].0 == x;
            lemma_entry_in_map(s, i);
            lemma_entry_in_map(t, i);
        }
    }
    assert(entries_map(t) =~= m);
}

pub proof fn lemma_map_update<A, B>(s: Seq<(A, B)>, i: int, v: B)
    requires
        keys_distinct(s),
        0 <= i < s.len(),
    ensures
        keys_distinct(s.update(i, (s[i].0, v))),
        entries_map(s.update(i, (s[i].0, v))) == entries_map(s).insert(s[i].0, v),
{
    let k = s[i].0;
    let t = s.update(i, (k, v));
    assert forall|a: int, b: int|
        0 <= a < t.len() && 0 <= b < t.len() && a != b implies #[trigger] t[a].0 != #[trigger] t[b].0 by {
        assert(t[a].0 == s[a].0);
        assert(t[b].0 == s[b].0);
    }
    let m = entries_map(s).insert(k, v);
    assert forall|x: A| #[trigger] m.contains_key(x) <==> entries_map(t).contains_key(x) by {
        if m.contains_key(x) && x != k {
            let j = choose|j: int| 0 <= j < s.len() && #[trigger] s[j].0 == x;
            assert(t[j].0 == x);
        }
        if entries_map(t).contains_key(x) {
            let j = choose|j: int| 0 <= j < t.len() && #[trigger] t[j].0 == x;
            assert(s[j].0 == x);
        }
        if x == k {
            assert(t[i].0 == k);
            assert(s[i].0 == k);
        }
    }
    assert forall|x: A| #[trigger] m.contains_key(x) implies m[x] == entries_map(t)[x] by {
        if x == k {
            lemma_entry_in_map(t, i);
        } else {
            let j = choose|j: int| 0 <= j < s.len() && #[trigger] s[j].0 == x;
            lemma_entry_in_map(s, j);
            lemma_entry_in_map(t, j);
        }
    }
    assert(entries_map(t) =~= m);
}

pub proof fn lemma_map_remove<A, B>(s: Seq<(A, B)>, i: int)
    requires
        keys_distinct(s),
        0 <= i < s.len(),
    ensures
        keys_distinct(s.remove(i)),
        entries_map(s.remove(i)) == entries_map(s).remove(s[i].0),
{
    let k = s[i].0;
    let t = s.remove(i);
    assert forall|a: int, b: int|
        0 <= a < t.len() && 0 <= b < t.len() && a != b implies #[trigger] t[a].0 != #[trigger] t[b].0 by {
        let a2 = if a < i {
            a
        } else {
            a + 1
        };
        let b2 = if b < i {
            b
        } else {
            b + 1
        };
        assert(t[a] == s[a2]);
        assert(t[b] == s[b2]);
        assert(s[a2].0 != s[b2].0);
    }
    let m = entries_map(s).remove(k);
    assert forall|x: A| #[trigger] m.contains_key(x) <==> entries_map(t).contains_key(x) by {
        if m.contains_key(x) {
            let j = choose|j: int| 0 <= j < s.len() && #[trigger] s[j].0 == x;
            assert(j != i);
            let j2 = if j < i {
                j
            } else {
                j - 1
            };
            assert(t[j2] == s[j]);
        }
        if entries_map(t).contains_key(x) {
            let j = choose|j: int| 0 <= j < t.len() && #[trigger] t[j].0 == x;
            let j2 = if j < i {
                j
            } else {
                j + 1
            };
            assert(t[j] == s[j2]);
            assert(s[j2].0 != s[i].0);
        }
    }
    assert forall|x: A| #[trigger] m.contains_key(x) implies m[x] == entries_map(t)[x] by {
        let j = choose|j: int| 0 <= j < s.len() && #[trigger] s[j].0 == x;
        assert(j != i);
        let j2 = if j < i {
            j
        } else {
            j - 1
        };
        assert(t[j2] == s[j]);
        lemma_entry_in_map(s, j);
        lemma_entry_in_map(t, j2);
    }
    assert(entries_map(t) =~= m);
}

pub proof fn lemma_map_insert_at<A, B>(s: Seq<(A, B)>, p: int, k: A, v: B)
    requires
        keys_distinct(s),
        !has_key(s, k),
        0 <= p <= s.len(),
    ensures
        keys_distinct(s.insert(p, (k, v))),
        entries_map(s.insert(p, (k, v))) == entries_map(s).insert(k, v),
{
    let t = s.insert(p, (k, v));
    assert forall|a: int| 0 <= a < t.len() implies #[trigger] t[a] == (if a < p {
        s[a]
    } else if a == p {
        (k, v)
    } else {
        s[a - 1]
    }) by {}
    assert forall|a: int, b: int|
        0 <= a < t.len() && 0 <= b < t.len() && a != b implies #[trigger] t[a].0 != #[trigger] t[b].0 by {
        if a != p && b != p {
            let a2 = if a < p {
                a
            } else {
                a - 1
            };
            let b2 = if b < p {
                b
            } else {
                b - 1
            };
            assert(s[a2].0 != s[b2].0);
        } else if a == p {
            let b2 = if b < p {
                b
            } else {
                b - 1
            };
            assert(s[b2].0 != k);
        } else {
            let a2 = if a < p {
                a
            } else {
                a - 1
            };
            assert(s[a2].0 != k);
        }
    }
    let m = entries_map(s).insert(k, v);
    assert forall|x: A| #[trigger] m.contains_key(x) <==> entries_map(t).contains_key(x) by {
        if m.contains_key(x) && x != k {
            let j = choose|j: int| 0 <= j < s.len() && #[trigger] s[j].0 == x;
            let j2 = if j < p {
                j
            } else {
                j + 1
            };
            assert(t[j2].0 == x);
        }
        if entries_map(t).contains_key(x) && x != k {
            let j = choose|j: int| 0 <= j < t.len() && #[trigger] t[j].0 == x;
            assert(j != p);
            let j2 = if j < p {
                j
            } else {
                j - 1
            };
            assert(s[j2].0 == x);
        }
        if x == k {
            assert(t[p].0 == k);
        }
    }
    assert forall|x: A| #[trigger] m.contains_key(x) implies m[x] == entries_map(t)[x] by {
        if x == k {
            lemma_entry_in_map(t, p);
        } else {
            let j = choose|j: int| 0 <= j < s.len() && #[trigger] s[j].0 == x;
            let j2 = if j < p {
                j
            } else {
                j + 1
            };
            lemma_entry_in_map(s, j);
            lemma_entry_in_map(t, j2);
        }
    }
    assert(entries_map(t) =~= m);
}

/// A table of distinct keys holds as many keys as entries.
pub proof fn lemma_map_len<A, B>(s: Seq<(A, B)>)
    requires
        keys_distinct(s),
    ensures
        entries_map(s).dom().finite(),
        entries_map(s).dom().len() == s.len(),
    decreases s.len(),
{
    if s.len() == 0 {
        lemma_empty_map(s);
    } else {
        let t = s.drop_last();
        let e = s.last();
        assert(t.push(e) =~= s);
        assert(keys_distinct(t));
        assert(!has_key(t, e.0)) by {
            if has_key(t, e.0) {
                let j = choose|j: int| 0 <= j < t.len() && #[trigger] t[j].0 == e.0;
                assert(s[j].0 == s[s.len() - 1].0);
            }
        }
        lemma_map_len(t);
        lemma_map_push(t, e.0, e.1);
        assert(!entries_map(t).dom().contains(e.0));
        assert(entries_map(s).dom() =~= entries_map(t).dom().insert(e.0));
    }
}

/// Entries of a table, keyed by `K` and holding `V`.
pub struct Table<K, V> {
    entries: Vec<(K, V)>,
}

/// The entries of a vector of key/value pairs, keys taken by their views.
pub open spec fn entry_views<K: View, V>(v: Seq<(K, V)>) -> Seq<(K::V, V)> {
    v.map_values(|e: (K, V)| (e.0@, e.1))
}

impl<K: TableKey, V> Table<K, V> {
    pub closed spec fn pairs(&self) -> Seq<(K::V, V)> {
        entry_views(self.entries@)
    }

    pub open spec fn wf(&self) -> bool {
        keys_distinct(self.pairs())
    }

    pub open spec fn map(&self) -> Map<K::V, V> {
        entries_map(self.pairs())
    }

    pub fn new() -> (r: Self)
        ensures
            r.wf(),
            r.map() == Map::<K::V, V>::empty(),
    {
        let r = Table { entries: Vec::new() };
        proof {
            assert(r.pairs() =~= Seq::<(K::V, V)>::empty());
            lemma_empty_map(r.pairs());
        }
        r
    }

    /// The number of keys.
    pub fn len(&self) -> (r: usize)
        requires
            self.wf(),
        ensures
            r == self.map().dom().len(),
            self.map().dom().finite(),
    {
        proof {
            lemma_map_len(self.pairs());
        }
        self.entries.len()
    }

    pub fn is_empty(&self) -> (r: bool)
        requires
            self.wf(),
        ensures
            r == (self.map() == Map::<K::V, V>::empty()),
            self.map().dom().finite(),
    {
        proof {
            lemma_map_len(self.pairs());
            if self.entries.len() == 0 {
                lemma_empty_map(self.pairs());
            } else {
                lemma_entry_in_map(self.pairs(), 0);
            }
        }
        self.entries.len() == 0
    }

    /// The position of the entry with key `k`.
    fn find(&self, k: &K) -> (r: Option<usize>)
        requires
            self.wf(),
        ensures
            match r {
                Some(i) => i < self.pairs().len() && self.pairs()[i as int].0 == k@,
                None => !self.map().contains_key(k@),
            },
    {
        let mut i: usize = 0;
        while i < self.entries.len()
            invariant
                i <= self.entries.len(),
                forall|j: int| 0 <= j < i ==> #[trigger] self.pairs()[j].0 != k@,
            decreases self.entries.len() - i,
        {
            if self.entries[i].0.same_key(k) {
                return Some(i);
            }
            i += 1;
        }
        proof {
            if has_key(self.pairs(), k@) {
                let j = choose|j: int| 0 <= j < self.pairs().len() && #[trigger] self.pairs()[j].0 == k@;
                assert(self.pairs()[j].0 != k@);
            }
        }
        None
    }

    /// The value held for `k`.
    pub fn get(&self, k: &K) -> (r: Option<&V>)
        requires
            self.wf(),
        ensures
            match r {
                Some(v) => self.map().contains_key(k@) && *v == self.map()[k@],
                None => !self.map().contains_key(k@),
            },
    {
        match self.find(k) {
            Some(i) => {
                proof {
                    lemma_entry_in_map(self.pairs(), i as int);
                }
                Some(&self.entries[i].1)
            },
            None => None,
        }
    }

    /// Holds `v` for `k`, replacing any value held before.
    pub fn insert(&mut self, k: K, v: V)
        requires
            old(self).wf(),
        ensures
            final(self).wf(),
            final(self).map() == old(self).map().insert(k@, v),
    {
        match self.find(&k) {
            Some(i) => {
                let ghost before = self.pairs();
                proof {
                    lemma_map_update(before, i as int, v);
                }
                self.entries.set(i, (k, v));
                assert(self.pairs() =~= before.update(i as int, (before[i as int].0, v)));
            },
            None => {
                let ghost before = self.pairs();
                let ghost kv = k@;
                proof {
                    if has_key(before, kv) {
                        let j = choose|j: int| 0 <= j < before.len() && #[trigger] before[j].0 == kv;
                        assert(entries_map(before).contains_key(kv));
                    }
                    lemma_map_push(before, kv, v);
                }
                self.entries.push((k, v));
                assert(self.pairs() =~= before.push((kv, v)));
            },
        }
    }

    /// Drops the entry for `k`, handing back its value.
    pub fn remove(&mut self, k: &K) -> (r: Option<V>)
        requires
            old(self).wf(),
        ensures
            final(self).wf(),
            final(self).map() == old(self).map().remove(k@),
            match r {
                Some(v) => old(self).map().contains_key(k@) && v == old(self).map()[k@],
                None => !old(self).map().contains_key(k@),
            },
    {
        match self.find(k) {
            Some(i) => {
                let ghost before = self.pairs();
                proof {
                    lemma_map_remove(before, i as int);
                    lemma_entry_in_map(before, i as int);
                }
                let (_, v) = self.entries.remove(i);
                assert(self.pairs() =~= before.remove(i as int));
                Some(v)
            },
            None => {
                assert(self.map().remove(k@) =~= self.map());
                None
            },
        }
    }

    /// The keys of a table can be listed in key order.
    pub proof fn lemma_has_listing(&self)
        requires
            self.wf(),
        ensures
            is_listing::<K, V>(listing::<K, V>(self.map()), self.map()),
            self.map().dom().finite(),
    {
        lemma_listing_exists::<K, V>(self.pairs());
        lemma_map_len(self.pairs());
    }

    /// Drops every entry.
    pub fn clear(&mut self)
        ensures
            final(self).wf(),
            final(self).map() == Map::<K::V, V>::empty(),
    {
        self.entries = Vec::new();
        proof {
            assert(self.pairs() =~= Seq::<(K::V, V)>::empty());
            lemma_empty_map(self.pairs());
        }
    }
}

impl<K: TableKey, V: Copy> Table<K, V> {
    /// A copy of the entries, in increasing key order.
    pub fn sorted_entries(&self) -> (r: Vec<(K, V)>)
        requires
            self.wf(),
        ensures
            keys_distinct(entry_views(r@)),
            keys_sorted::<K, V>(entry_views(r@)),
            entries_map(entry_views(r@)) == self.map(),
            entry_views(r@) == listing::<K, V>(self.map()),
            r.len() == self.map().dom().len(),
    {
        let mut out: Vec<(K, V)> = Vec::new();
        let mut i: usize = 0;
        proof {
            assert(entry_views(out@) =~= Seq::<(K::V, V)>::empty());
            lemma_empty_map(entry_views(out@));
            lemma_empty_map(self.pairs().take(0));
            assert(self.pairs().take(0) =~= Seq::<(K::V, V)>::empty());
        }
        while i < self.entries.len()
            invariant
                self.wf(),
                i <= self.entries.len(),
                out.len() == i,
                keys_distinct(entry_views(out@)),
                keys_sorted::<K, V>(entry_views(out@)),
                entries_map(entry_views(out@)) == entries_map(self.pairs().take(i as int)),
            decreases self.entries.len() - i,
        {
            let key = self.entries[i].0.copy_key();
            let value = self.entries[i].1;
            let ghost ov = entry_views(out@);
            let ghost kv = key@;
            // Find the first position whose key sorts after the new one.
            let mut p: usize = 0;
            while p < out.len() && out[p].0.key_less(&key)
                invariant
                    p <= out.len(),
                    ov == entry_views(out@),
                    kv == key@,
                    forall|j: int| 0 <= j < p ==> K::key_lt(#[trigger] ov[j].0, kv),
                decreases out.len() - p,
            {
                p += 1;
            }
            proof {
                let pre = self.pairs().take(i as int);
                let post = self.pairs().take(i as int + 1);
                assert(post =~= pre.push((kv, value)));
                assert(keys_distinct(pre));
                assert(!has_key(pre, kv)) by {
                    if has_key(pre, kv) {
                        let j = choose|j: int| 0 <= j < pre.len() && #[trigger] pre[j].0 == kv;
                        assert(self.pairs()[j].0 == self.pairs()[i as int].0);
                    }
                }
                lemma_map_push(pre, kv, value);
                // The new key is not yet among the listed ones.
                assert(!has_key(ov, kv)) by {
                    if has_key(ov, kv) {
                        let j = choose|j: int| 0 <= j < ov.len() && #[trigger] ov[j].0 == kv;
                        lemma_entry_in_map(ov, j);
                        assert(entries_map(pre).contains_key(kv));
                    }
                }
                lemma_map_insert_at(ov, p as int, kv, value);
                // Sortedness of the extended listing.
                let nv = ov.insert(p as int, (kv, value));
                assert forall|a: int, b: int| 0 <= a < b < nv.len() implies K::key_lt(
                    #[trigger] nv[a].0,
                    #[trigger] nv[b].0,
                ) by {
                    if b < p {
                        assert(K::key_lt(ov[a].0, ov[b].0));
                    } else if b == p {
                        assert(K::key_lt(ov[a].0, kv));
                    } else if a < p {
                        assert(K::key_lt(ov[a].0, kv));
                        assert(K::key_lt(ov[a].0, ov[b - 1].0));
                    } else if a == p {
                        // ov[p] does not precede the new key, and differs from it.
                        assert(!K::key_lt(ov[p as int].0, kv));
                        assert(ov[p as int].0 != kv) by {
                            assert(!has_key(ov, kv));
                            if ov[p as int].0 == kv {
                                assert(has_key(ov, kv));
                            }
                        }
                        K::lemma_key_lt_total(kv, ov[p as int].0);
                        if b - 1 > p {
                            assert(K::key_lt(ov[p as int].0, ov[b - 1].0));
                            K::lemma_key_lt_transitive(kv, ov[p as int].0, ov[b - 1].0);
                        }
                    } else {
                        assert(K::key_lt(ov[a - 1].0, ov[b - 1].0));
                    }
                }
            }
            out.insert(p, (key, value));
            assert(entry_views(out@) =~= ov.insert(p as int, (kv, value)));
            i += 1;
        }
        proof {
            assert(self.pairs().take(self.entries.len() as int) =~= self.pairs());
            lemma_map_len(self.pairs());
            lemma_listing::<K, V>(entry_views(out@), self.map());
        }
        out
    }
}

/// A rearrangement of entries with distinct keys has the same map.
pub proof fn lemma_permuted_entries<K: View, V>(s: Seq<(K, V)>, r: Seq<(K, V)>)
    requires
        keys_distinct(entry_views(s)),
        r.to_multiset() == s.to_multiset(),
    ensures
        keys_distinct(entry_views(r)),
        entries_map(entry_views(r)) == entries_map(entry_views(s)),
        r.len() == s.len(),
{
    broadcast use vstd::seq_lib::group_to_multiset_ensures;

    let sv = entry_views(s);
    let rv = entry_views(r);
    assert(s.no_duplicates()) by {
        assert forall|i: int, j: int| 0 <= i < s.len() && 0 <= j < s.len() && i != j implies s[i]
            != s[j] by {
            assert(sv[i].0 != sv[j].0);
        }
    }
    s.lemma_multiset_has_no_duplicates();
    assert forall|x: (K, V)| r.to_multiset().count(x) <= 1 by {
        assert(s.to_multiset().count(x) <= 1);
    }
    r.lemma_multiset_has_no_duplicates_conv();
    // Each entry of one is an entry of the other.
    assert forall|i: int| 0 <= i < r.len() implies exists|j: int| 0 <= j < s.len() && s[j] == #[trigger] r[i] by {
        assert(r.to_multiset().count(r[i]) > 0);
        assert(s.to_multiset().count(r[i]) > 0);
        assert(s.contains(r[i]));
    }
    assert forall|j: int| 0 <= j < s.len() implies exists|i: int| 0 <= i < r.len() && r[i] == #[trigger] s[j] by {
        assert(s.to_multiset().count(s[j]) > 0);
        assert(r.to_multiset().count(s[j]) > 0);
        assert(r.contains(s[j]));
    }
    assert forall|a: int, b: int| 0 <= a < rv.len() && 0 <= b < rv.len() && a != b implies #[trigger] rv[a].0 != #[trigger] rv[b].0 by {
        let ja = choose|j: int| 0 <= j < s.len() && s[j] == r[a];
        let jb = choose|j: int| 0 <= j < s.len() && s[j] == r[b];
        assert(r[a] != r[b]);
        assert(ja != jb);
        assert(sv[ja].0 != sv[jb].0);
    }
    assert forall|k: K::V| #[trigger] has_key(rv, k) <==> has_key(sv, k) by {
        if has_key(rv, k) {
            let i = choose|i: int| 0 <= i < rv.len() && #[trigger] rv[i].0 == k;
            let j = choose|j: int| 0 <= j < s.len() && s[j] == r[i];
            assert(sv[j].0 == k);
        }
        if has_key(sv, k) {
            let j = choose|j: int| 0 <= j < sv.len() && #[trigger] sv[j].0 == k;
            let i = choose|i: int| 0 <= i < r.len() && r[i] == s[j];
            assert(rv[i].0 == k);
        }
    }
    assert forall|k: K::V| #[trigger] entries_map(rv).contains_key(k) implies entries_map(rv)[k] == entries_map(sv)[k] by {
        let i = choose|i: int| 0 <= i < rv.len() && #[trigger] rv[i].0 == k;
        let j = choose|j: int| 0 <= j < s.len() && s[j] == r[i];
        lemma_entry_in_map(rv, i);
        lemma_entry_in_map(sv, j);
    }
    assert(entries_map(rv) =~= entries_map(sv));
    assert(r.len() == r.to_multiset().len());
}

/// Two key-sorted listings of the same map are the same listing.
pub proof fn lemma_sorted_unique<K: TableKey, V>(s: Seq<(K::V, V)>, t: Seq<(K::V, V)>)
    requires
        keys_distinct(s),
        keys_distinct(t),
        keys_sorted::<K, V>(s),
        keys_sorted::<K, V>(t),
        entries_map(s) == entries_map(t),
    ensures
        s == t,
    decreases s.len(),
{
    lemma_map_len(s);
    lemma_map_len(t);
    if s.len() == 0 {
        assert(s =~= t);
    } else {
        let k = s[0].0;
        lemma_entry_in_map(s, 0);
        let j = choose|j: int| 0 <= j < t.len() && #[trigger] t[j].0 == k;
        if j > 0 {
            // t[0] sorts before k, yet s lists nothing before k.
            lemma_entry_in_map(t, 0);
            let i = choose|i: int| 0 <= i < s.len() && #[trigger] s[i].0 == t[0].0;
            assert(K::key_lt(t[0].0, t[j].0));
            if i == 0 {
                K::lemma_key_lt_irreflexive(k);
            } else {
                assert(K::key_lt(s[0].0, s[i].0));
                K::lemma_key_lt_transitive(s[i].0, s[0].0, s[i].0);
                K::lemma_key_lt_irreflexive(s[i].0);
            }
        }
        assert(j == 0);
        lemma_entry_in_map(t, 0);
        assert(s[0] == t[0]);
        lemma_map_remove(s, 0);
        lemma_map_remove(t, 0);
        assert(s.remove(0) =~= s.drop_first());
        assert(t.remove(0) =~= t.drop_first());
        lemma_sorted_unique::<K, V>(s.drop_first(), t.drop_first());
        assert(s =~= seq![s[0]] + s.drop_first());
        assert(t =~= seq![t[0]] + t.drop_first());
    }
}

/// A listing of the map's entries in increasing key order.
pub open spec fn is_listing<K: TableKey, V>(s: Seq<(K::V, V)>, m: Map<K::V, V>) -> bool {
    keys_distinct(s) && keys_sorted::<K, V>(s) && entries_map(s) == m
}

/// The entries of `m` in increasing key order.
pub open spec fn listing<K: TableKey, V>(m: Map<K::V, V>) -> Seq<(K::V, V)> {
    choose|s: Seq<(K::V, V)>| is_listing::<K, V>(s, m)
}

pub proof fn lemma_listing<K: TableKey, V>(s: Seq<(K::V, V)>, m: Map<K::V, V>)
    requires
        is_listing::<K, V>(s, m),
    ensures
        listing::<K, V>(m) == s,
{
    let t = listing::<K, V>(m);
    assert(is_listing::<K, V>(t, m));
    lemma_sorted_unique::<K, V>(s, t);
}

/// The position at which `k` is listed among the sorted keys of `t`, from `i` on.
pub open spec fn insert_position<K: TableKey, V>(t: Seq<(K::V, V)>, k: K::V, i: int) -> int
    decreases t.len() - i,
{
    if i < 0 || i >= t.len() {
        t.len() as int
    } else if K::key_lt(k, t[i].0) {
        i
    } else {
        insert_position::<K, V>(t, k, i + 1)
    }
}

proof fn lemma_insert_position<K: TableKey, V>(t: Seq<(K::V, V)>, k: K::V, i: int)
    requires
        0 <= i <= t.len(),
    ensures
        i <= insert_position::<K, V>(t, k, i) <= t.len(),
        forall|j: int| i <= j < insert_position::<K, V>(t, k, i) ==> !K::key_lt(k, #[trigger] t[j].0),
        insert_position::<K, V>(t, k, i) < t.len() ==> K::key_lt(k, t[insert_position::<K, V>(t, k, i)].0),
    decreases t.len() - i,
{
    if i < t.len() && !K::key_lt(k, t[i].0) {
        lemma_insert_position::<K, V>(t, k, i + 1);
    }
}

/// Every table of distinct keys has a listing in key order.
pub proof fn lemma_listing_exists<K: TableKey, V>(s: Seq<(K::V, V)>)
    requires
        keys_distinct(s),
    ensures
        is_listing::<K, V>(listing::<K, V>(entries_map(s)), entries_map(s)),
    decreases s.len(),
{
    if s.len() == 0 {
        lemma_empty_map(s);
        let t = Seq::<(K::V, V)>::empty();
        lemma_empty_map(t);
        assert(is_listing::<K, V>(t, entries_map(s)));
    } else {
        let pre = s.drop_last();
        let e = s.last();
        assert(pre.push(e) =~= s);
        assert(keys_distinct(pre));
        assert(!has_key(pre, e.0)) by {
            if has_key(pre, e.0) {
                let j = choose|j: int| 0 <= j < pre.len() && #[trigger] pre[j].0 == e.0;
                assert(s[j].0 == s[s.len() - 1].0);
            }
        }
        lemma_map_push(pre, e.0, e.1);
        lemma_listing_exists::<K, V>(pre);
        let t = listing::<K, V>(entries_map(pre));
        let kv = e.0;
        assert(!has_key(t, kv)) by {
            if has_key(t, kv) {
                let j = choose|j: int| 0 <= j < t.len() && #[trigger] t[j].0 == kv;
                lemma_entry_in_map(t, j);
                assert(entries_map(pre).contains_key(kv));
            }
        }
        let p = insert_position::<K, V>(t, kv, 0);
        lemma_insert_position::<K, V>(t, kv, 0);
        lemma_map_insert_at(t, p, kv, e.1);
        let nv = t.insert(p, (kv, e.1));
        assert forall|a: int, b: int| 0 <= a < b < nv.len() implies K::key_lt(#[trigger] nv[a].0, #[trigger] nv[b].0) by {
            if b < p {
                assert(K::key_lt(t[a].0, t[b].0));
            } else if b == p {
                assert(!K::key_lt(kv, t[a].0));
                assert(t[a].0 != kv);
                K::lemma_key_lt_total(kv, t[a].0);
            } else if a < p {
                assert(K::key_lt(t[a].0, t[b - 1].0));
            } else if a == p {
                assert(K::key_lt(kv, t[p].0));
                if b - 1 > p {
                    assert(K::key_lt(t[p].0, t[b - 1].0));
                    K::lemma_key_lt_transitive(kv, t[p].0, t[b - 1].0);
                }
            } else {
                assert(K::key_lt(t[a - 1].0, t[b - 1].0));
            }
        }
        assert(is_listing::<K, V>(nv, entries_map(s)));
        lemma_listing::<K, V>(nv, entries_map(s));
    }
}

/// The sum of the counts of the entries.
pub open spec fn counts_total<A>(s: Seq<(A, u64)>) -> nat
    decreases s.len(),
{
    if s.len() == 0 {
        0
    } else {
        counts_total(s.drop_last()) + s.last().1 as nat
    }
}

/// The largest count of the entries, or zero.
pub open spec fn counts_max<A>(s: Seq<(A, u64)>) -> u64
    decreases s.len(),
{
    if s.len() == 0 {
        0
    } else {
        let m = counts_max(s.drop_last());
        if s.last().1 > m {
            s.last().1
        } else {
            m
        }
    }
}

proof fn lemma_counts_total_bounded<A>(s: Seq<(A, u64)>)
    ensures
        counts_total(s) <= s.len() * (u64::MAX as nat),
    decreases s.len(),
{
    if s.len() > 0 {
        lemma_counts_total_bounded(s.drop_last());
        assert((s.len() - 1) * (u64::MAX as nat) + u64::MAX as nat == s.len() * (u64::MAX as nat))
            by (nonlinear_arith);
    }
}

/// The counts of a table's entries, summed in increasing key order.
pub fn table_total<K: TableKey>(t: &Table<K, u64>) -> (r: u128)
    requires
        t.wf(),
    ensures
        r == counts_total(listing::<K, u64>(t.map())),
{
    let entries = t.sorted_entries();
    let ghost s = entry_views(entries@);
    let mut total: u128 = 0;
    let mut i: usize = 0;
    while i < entries.len()
        invariant
            s == entry_views(entries@),
            i <= entries.len(),
            total == counts_total(s.take(i as int)),
        decreases entries.len() - i,
    {
        proof {
            assert(s.take(i as int + 1).drop_last() =~= s.take(i as int));
            lemma_counts_total_bounded(s.take(i as int + 1));
            assert(s.take(i as int + 1).len() <= usize::MAX);
            assert((i as nat + 1) * (u64::MAX as nat) <= (usize::MAX as nat) * (u64::MAX as nat))
                by (nonlinear_arith)
                requires
                    i < usize::MAX,
            ;
            assert((usize::MAX as nat) * (u64::MAX as nat) <= u128::MAX) by (nonlinear_arith);
        }
        total = total + entries[i].1 as u128;
        i += 1;
    }
    proof {
        assert(s.take(i as int) =~= s);
    }
    total
}

/// The largest count of a table's entries, or zero.
pub fn table_max<K: TableKey>(t: &Table<K, u64>) -> (r: u64)
    requires
        t.wf(),
    ensures
        r == counts_max(listing::<K, u64>(t.map())),
{
    let entries = t.sorted_entries();
    let ghost s = entry_views(entries@);
    let mut best: u64 = 0;
    let mut i: usize = 0;
    while i < entries.len()
        invariant
            s == entry_views(entries@),
            i <= entries.len(),
            best == counts_max(s.take(i as int)),
        decreases entries.len() - i,
    {
        proof {
            assert(s.take(i as int + 1).drop_last() =~= s.take(i as int));
        }
        if entries[i].1 > best {
            best = entries[i].1;
        }
        i += 1;
    }
    proof {
        assert(s.take(i as int) =~= s);
    }
    best
}

} // verus!

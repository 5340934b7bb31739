//! A map kept as a vector of entries in ascending key order.
//!
//! The order of a key type is given by an injective rank, so that the usual
//! laws of a total order are those of the natural numbers. Lookups are binary
//! searches, and walking the entries visits the keys in ascending order
//! whatever the order of the insertions was.

use vstd::prelude::*;

verus! {

/// A key with a total order: `rank` places every value of the type at a
/// position of its own among the natural numbers.
pub trait Key: Copy {
    /// The position of the key in the order of its type.
    spec fn rank(self) -> nat;

    /// No two keys share a position.
    proof fn lemma_rank_injective(a: Self, b: Self)
        requires
            a.rank() == b.rank(),
        ensures
            a == b,
    ;

    /// Whether `self` comes strictly before `other`.
    fn precedes(&self, other: &Self) -> (r: bool)
        ensures
            r == (self.rank() < other.rank()),
    ;
}

/// The entries stand in strictly ascending key order.
pub open spec fn ascending<K: Key, V>(s: Seq<(K, V)>) -> bool {
    forall|i: int, j: int|
        0 <= i < j < s.len() ==> (#[trigger] s[i]).0.rank() < (#[trigger] s[j]).0.rank()
}

/// The keys stand in strictly ascending order, so that none occurs twice.
pub open spec fn strictly_ascending<K: Key>(s: Seq<K>) -> bool {
    forall|i: int, j: int| 0 <= i < j < s.len() ==> (#[trigger] s[i]).rank() < (#[trigger] s[j]).rank()
}

/// The sequence lists the members of the set, each once, in ascending order.
pub open spec fn is_listing_of<K: Key>(listing: Seq<K>, members: Set<K>) -> bool {
    &&& strictly_ascending(listing)
    &&& forall|k: K|
        #![trigger listing.contains(k)]
        #![trigger members.contains(k)]
        listing.contains(k) <==> members.contains(k)
}

/// A set has one ascending listing: two sequences that list the same set are
/// the same sequence.
pub proof fn lemma_listing_unique<K: Key>(s: Seq<K>, t: Seq<K>, members: Set<K>)
    requires
        is_listing_of(s, members),
        is_listing_of(t, members),
    ensures
        s == t,
{
    assert forall|k: K| s.contains(k) <==> t.contains(k) by {
        assert(s.contains(k) <==> members.contains(k));
        assert(t.contains(k) <==> members.contains(k));
    }
    lemma_ascending_listing_unique(s, t);
}

/// Two strictly ascending sequences with the same members are the same
/// sequence.
proof fn lemma_ascending_listing_unique<K: Key>(s: Seq<K>, t: Seq<K>)
    requires
        strictly_ascending(s),
        strictly_ascending(t),
        forall|k: K| s.contains(k) <==> t.contains(k),
    ensures
        s == t,
    decreases s.len(),
{
    if s.len() == 0 {
        if t.len() > 0 {
            assert(t.contains(t[0]));
        }
        assert(s =~= t);
    } else if t.len() == 0 {
        assert(s.contains(s[0]));
    } else {
        let n = s.len() - 1;
        let m = t.len() - 1;
        // The last members are the largest of each, so they are the same key.
        assert(s.contains(s[n]));
        assert(t.contains(t[m]));
        let i = choose|i: int| 0 <= i < t.len() && t[i] == s[n];
        let j = choose|j: int| 0 <= j < s.len() && s[j] == t[m];
        assert(t[i].rank() <= t[m].rank());
        assert(s[j].rank() <= s[n].rank());
        K::lemma_rank_injective(s[n], t[m]);
        let s0 = s.drop_last();
        let t0 = t.drop_last();
        assert forall|k: K| s0.contains(k) <==> t0.contains(k) by {
            if s0.contains(k) {
                let a = choose|a: int| 0 <= a < s0.len() && s0[a] == k;
                assert(s[a] == k);
                assert(s.contains(k));
                let b = choose|b: int| 0 <= b < t.len() && t[b] == k;
                assert(s[a].rank() < s[n].rank());
                assert(t0[b] == k);
            }
            if t0.contains(k) {
                let b = choose|b: int| 0 <= b < t0.len() && t0[b] == k;
                assert(t[b] == k);
                assert(t.contains(k));
                let a = choose|a: int| 0 <= a < s.len() && s[a] == k;
                assert(t[b].rank() < t[m].rank());
                assert(s0[a] == k);
            }
        }
        assert(strictly_ascending(s0)) by {
            assert forall|a: int, b: int| 0 <= a < b < s0.len() implies (#[trigger] s0[a]).rank() < (
            #[trigger] s0[b]).rank() by {
                assert(s0[a] == s[a] && s0[b] == s[b]);
            }
        }
        assert(strictly_ascending(t0)) by {
            assert forall|a: int, b: int| 0 <= a < b < t0.len() implies (#[trigger] t0[a]).rank() < (
            #[trigger] t0[b]).rank() by {
                assert(t0[a] == t[a] && t0[b] == t[b]);
            }
        }
        lemma_ascending_listing_unique(s0, t0);
        assert(s =~= s0.push(s[n]));
        assert(t =~= t0.push(t[m]));
    }
}

/// The map that results from inserting the entries one after the other, so
/// that a later entry replaces an earlier one under the same key.
pub open spec fn entries_map<K, V>(s: Seq<(K, V)>) -> Map<K, V>
    decreases s.len(),
{
    if s.len() == 0 {
        Map::empty()
    } else {
        entries_map(s.drop_last()).insert(s.last().0, s.last().1)
    }
}

/// The keys of `entries_map(s)` are the keys of the entries.
pub proof fn lemma_entries_map_keys<K, V>(s: Seq<(K, V)>)
    ensures
        forall|i: int| 0 <= i < s.len() ==> entries_map(s).contains_key((#[trigger] s[i]).0),
        forall|k: K| #[trigger]
            entries_map(s).contains_key(k) ==> exists|i: int|
                0 <= i < s.len() && (#[trigger] s[i]).0 == k,
        entries_map(s).dom().finite(),
    decreases s.len(),
{
    if s.len() > 0 {
        let front = s.drop_last();
        lemma_entries_map_keys(front);
        assert forall|i: int| 0 <= i < s.len() implies entries_map(s).contains_key(
            (#[trigger] s[i]).0,
        ) by {
            if i < s.len() - 1 {
                assert(front[i] == s[i]);
            }
        }
        assert forall|k: K| #[trigger] entries_map(s).contains_key(k) implies exists|i: int|
            0 <= i < s.len() && (#[trigger] s[i]).0 == k by {
            if k == s.last().0 {
                assert(s[s.len() - 1].0 == k);
            } else {
                assert(entries_map(front).contains_key(k));
                let i = choose|i: int| 0 <= i < front.len() && (#[trigger] front[i]).0 == k;
                assert(s[i].0 == k);
            }
        }
    }
}

/// In ascending order every entry is the one that the map holds under its key.
pub proof fn lemma_entries_map_values<K: Key, V>(s: Seq<(K, V)>)
    requires
        ascending(s),
    ensures
        forall|i: int|
            0 <= i < s.len() ==> entries_map(s).contains_key((#[trigger] s[i]).0) && entries_map(
                s,
            )[s[i].0] == s[i].1,
    decreases s.len(),
{
    if s.len() > 0 {
        let front = s.drop_last();
        assert(ascending(front)) by {
            assert forall|i: int, j: int| 0 <= i < j < front.len() implies (#[trigger] front[i]).0.rank()
                < (#[trigger] front[j]).0.rank() by {
                assert(front[i] == s[i] && front[j] == s[j]);
            }
        }
        lemma_entries_map_values(front);
        assert forall|i: int| 0 <= i < s.len() implies entries_map(s).contains_key(
            (#[trigger] s[i]).0,
        ) && entries_map(s)[s[i].0] == s[i].1 by {
            if i < s.len() - 1 {
                assert(front[i] == s[i]);
                assert(s[i].0.rank() < s[s.len() - 1].0.rank());
            }
        }
    }
}

/// An ascending sequence holds as many entries as its map has keys.
pub proof fn lemma_entries_map_len<K: Key, V>(s: Seq<(K, V)>)
    requires
        ascending(s),
    ensures
        entries_map(s).dom().finite(),
        entries_map(s).dom().len() == s.len(),
    decreases s.len(),
{
    lemma_entries_map_keys(s);
    if s.len() > 0 {
        let front = s.drop_last();
        assert(ascending(front)) by {
            assert forall|i: int, j: int| 0 <= i < j < front.len() implies (#[trigger] front[i]).0.rank()
                < (#[trigger] front[j]).0.rank() by {
                assert(front[i] == s[i] && front[j] == s[j]);
            }
        }
        lemma_entries_map_len(front);
        lemma_entries_map_keys(front);
        if entries_map(front).contains_key(s.last().0) {
            let i = choose|i: int| 0 <= i < front.len() && (#[trigger] front[i]).0 == s.last().0;
            assert(front[i] == s[i]);
            assert(s[i].0.rank() < s[s.len() - 1].0.rank());
        }
        assert(entries_map(s).dom() =~= entries_map(front).dom().insert(s.last().0));
    }
}

/// Putting a new key at its place in ascending order inserts it into the map
/// and keeps the order.
pub proof fn lemma_insert_at<K: Key, V>(s: Seq<(K, V)>, at: int, key: K, value: V)
    requires
        ascending(s),
        0 <= at <= s.len(),
        forall|j: int| 0 <= j < at ==> (#[trigger] s[j]).0.rank() < key.rank(),
        forall|j: int| at <= j < s.len() ==> key.rank() < (#[trigger] s[j]).0.rank(),
    ensures
        ascending(s.insert(at, (key, value))),
        entries_map(s.insert(at, (key, value))) == entries_map(s).insert(key, value),
{
    let t = s.insert(at, (key, value));
    assert(ascending(t)) by {
        assert forall|i: int, j: int| 0 <= i < j < t.len() implies (#[trigger] t[i]).0.rank() < (
        #[trigger] t[j]).0.rank() by {
            if i < at {
                assert(t[i] == s[i]);
            } else if i > at {
                assert(t[i] == s[i - 1]);
            }
            if j < at {
                assert(t[j] == s[j]);
            } else if j > at {
                assert(t[j] == s[j - 1]);
            }
        }
    }
    lemma_entries_map_keys(s);
    lemma_entries_map_keys(t);
    lemma_entries_map_values(s);
    lemma_entries_map_values(t);
    let m = entries_map(s).insert(key, value);
    assert forall|k: K| entries_map(t).contains_key(k) <==> m.contains_key(k) by {
        if entries_map(t).contains_key(k) {
            let i = choose|i: int| 0 <= i < t.len() && (#[trigger] t[i]).0 == k;
            if i < at {
                assert(t[i] == s[i]);
            } else if i > at {
                assert(t[i] == s[i - 1]);
            }
        }
        if m.contains_key(k) {
            if k == key {
                assert(t[at].0 == k);
            } else {
                let i = choose|i: int| 0 <= i < s.len() && (#[trigger] s[i]).0 == k;
                if i < at {
                    assert(t[i] == s[i]);
                } else {
                    assert(t[i + 1] == s[i]);
                }
            }
        }
    }
    assert forall|k: K| entries_map(t).contains_key(k) implies entries_map(t)[k] == m[k] by {
        let i = choose|i: int| 0 <= i < t.len() && (#[trigger] t[i]).0 == k;
        if i < at {
            assert(t[i] == s[i]);
        } else if i > at {
            assert(t[i] == s[i - 1]);
        } else {
            assert(t[at] == (key, value));
        }
    }
    assert(entries_map(t) =~= m);
}

/// Replacing the value of the entry at `at` replaces it in the map and keeps
/// the order.
pub proof fn lemma_replace_at<K: Key, V>(s: Seq<(K, V)>, at: int, value: V)
    requires
        ascending(s),
        0 <= at < s.len(),
    ensures
        ascending(s.update(at, (s[at].0, value))),
        entries_map(s.update(at, (s[at].0, value))) == entries_map(s).insert(s[at].0, value),
{
    let key = s[at].0;
    let t = s.update(at, (key, value));
    assert(ascending(t)) by {
        assert forall|i: int, j: int| 0 <= i < j < t.len() implies (#[trigger] t[i]).0.rank() < (
        #[trigger] t[j]).0.rank() by {
            assert(t[i].0 == s[i].0 && t[j].0 == s[j].0);
        }
    }
    lemma_entries_map_keys(s);
    lemma_entries_map_keys(t);
    lemma_entries_map_values(s);
    lemma_entries_map_values(t);
    let m = entries_map(s).insert(key, value);
    assert forall|k: K| entries_map(t).contains_key(k) <==> m.contains_key(k) by {
        if entries_map(t).contains_key(k) {
            let i = choose|i: int| 0 <= i < t.len() && (#[trigger] t[i]).0 == k;
            assert(t[i].0 == s[i].0);
        }
        if m.contains_key(k) && k != key {
            let i = choose|i: int| 0 <= i < s.len() && (#[trigger] s[i]).0 == k;
            assert(t[i].0 == s[i].0);
        }
        if k == key {
            assert(t[at].0 == k);
        }
    }
    assert forall|k: K| entries_map(t).contains_key(k) implies entries_map(t)[k] == m[k] by {
        let i = choose|i: int| 0 <= i < t.len() && (#[trigger] t[i]).0 == k;
        if i != at {
            assert(t[i] == s[i]);
            assert(s[i].0.rank() != s[at].0.rank());
        }
    }
    assert(entries_map(t) =~= m);
}

/// Taking the entry at `at` out takes its key out of the map and keeps the
/// order.
pub proof fn lemma_remove_at<K: Key, V>(s: Seq<(K, V)>, at: int)
    requires
        ascending(s),
        0 <= at < s.len(),
    ensures
        ascending(s.remove(at)),
        entries_map(s.remove(at)) == entries_map(s).remove(s[at].0),
{
    let key = s[at].0;
    let t = s.remove(at);
    assert forall|j: int| 0 <= j < t.len() implies #[trigger] t[j] == (if j < at {
        s[j]
    } else {
        s[j + 1]
    }) by {}
    assert(ascending(t)) by {
        assert forall|i: int, j: int| 0 <= i < j < t.len() implies (#[trigger] t[i]).0.rank() < (
        #[trigger] t[j]).0.rank() by {
            let a = if i < at {
                i
            } else {
                i + 1
            };
            let b = if j < at {
                j
            } else {
                j + 1
            };
            assert(t[i] == s[a] && t[j] == s[b]);
        }
    }
    lemma_entries_map_keys(s);
    lemma_entries_map_keys(t);
    lemma_entries_map_values(s);
    lemma_entries_map_values(t);
    let m = entries_map(s).remove(key);
    assert forall|k: K| entries_map(t).contains_key(k) <==> m.contains_key(k) by {
        if entries_map(t).contains_key(k) {
            let i = choose|i: int| 0 <= i < t.len() && (#[trigger] t[i]).0 == k;
            let a = if i < at {
                i
            } else {
                i + 1
            };
            assert(t[i] == s[a]);
            assert(s[a].0.rank() != s[at].0.rank());
        }
        if m.contains_key(k) {
            let i = choose|i: int| 0 <= i < s.len() && (#[trigger] s[i]).0 == k;
            if i < at {
                assert(t[i] == s[i]);
            } else {
                assert(t[i - 1] == s[i]);
            }
        }
    }
    assert forall|k: K| entries_map(t).contains_key(k) implies entries_map(t)[k] == m[k] by {
        let i = choose|i: int| 0 <= i < t.len() && (#[trigger] t[i]).0 == k;
        let a = if i < at {
            i
        } else {
            i + 1
        };
        assert(t[i] == s[a]);
    }
    assert(entries_map(t) =~= m);
}

/// Walking an ascending sequence builds its map one new key at a time: the
/// entry at position `i` is absent from the map of the `i` entries before it,
/// and the map of the first `i + 1` entries is that map with the entry added.
pub proof fn lemma_prefix_step<K: Key, V>(s: Seq<(K, V)>, i: int)
    requires
        ascending(s),
        0 <= i < s.len(),
    ensures
        !entries_map(s.take(i)).contains_key(s[i].0),
        entries_map(s.take(i + 1)) == entries_map(s.take(i)).insert(s[i].0, s[i].1),
        entries_map(s.take(0)) == Map::<K, V>::empty(),
        s.take(s.len() as int) == s,
{
    let before = s.take(i);
    lemma_entries_map_keys(before);
    if entries_map(before).contains_key(s[i].0) {
        let j = choose|j: int| 0 <= j < before.len() && (#[trigger] before[j]).0 == s[i].0;
        assert(before[j] == s[j]);
        assert(s[j].0.rank() < s[i].0.rank());
    }
    assert(s.take(i + 1).drop_last() =~= before);
    assert(s.take(i + 1).last() == s[i]);
    assert(s.take(s.len() as int) =~= s);
}

/// A finite map from `K` to `V`, with its entries in ascending key order.
#[derive(Debug)]
pub struct OrdMap<K: Key, V> {
    entries: Vec<(K, V)>,
}

impl<K: Key, V> View for OrdMap<K, V> {
    type V = Map<K, V>;

    /// The map as a set of key-value pairs.
    open spec fn view(&self) -> Map<K, V> {
        entries_map(self.seq())
    }
}

impl<K: Key, V> OrdMap<K, V> {
    #[verifier::type_invariant]
    spec fn in_order(self) -> bool {
        ascending(self.entries@)
    }

    /// The entries in ascending key order.
    pub closed spec fn seq(self) -> Seq<(K, V)> {
        if ascending(self.entries@) {
            self.entries@
        } else {
            Seq::empty()
        }
    }

    /// The keys in ascending order.
    pub open spec fn key_seq(self) -> Seq<K> {
        self.seq().map_values(|e: (K, V)| e.0)
    }

    /// The keys of every map are listed in strictly ascending order, and the
    /// listing holds the keys of the map and no others.
    pub proof fn lemma_key_seq(self)
        ensures
            is_listing_of(self.key_seq(), self@.dom()),
            self.key_seq().len() == self.seq().len(),
    {
        self.lemma_seq();
        let ks = self.key_seq();
        assert forall|k: K| ks.contains(k) <==> self@.contains_key(k) by {
            if ks.contains(k) {
                let i = choose|i: int| 0 <= i < ks.len() && ks[i] == k;
                assert(self.seq()[i].0 == k);
            }
            if self@.contains_key(k) {
                let i = choose|i: int|
                    0 <= i < self.seq().len() && (#[trigger] self.seq()[i]).0 == k;
                assert(ks[i] == k);
            }
        }
    }

    /// The entries of every map are in ascending order, and each of them is
    /// what the map holds under its key.
    pub proof fn lemma_seq(self)
        ensures
            ascending(self.seq()),
            self@.dom().finite(),
            self@.dom().len() == self.seq().len(),
            forall|i: int|
                0 <= i < self.seq().len() ==> self@.contains_key((#[trigger] self.seq()[i]).0)
                    && self@[self.seq()[i].0] == self.seq()[i].1,
            forall|k: K| #[trigger]
                self@.contains_key(k) ==> exists|i: int|
                    0 <= i < self.seq().len() && (#[trigger] self.seq()[i]).0 == k,
    {
        lemma_entries_map_keys(self.seq());
        lemma_entries_map_values(self.seq());
        lemma_entries_map_len(self.seq());
    }

    /// The empty map.
    pub fn new() -> (m: Self)
        ensures
            m.seq() == Seq::<(K, V)>::empty(),
            m@ == Map::<K, V>::empty(),
    {
        OrdMap { entries: Vec::new() }
    }

    /// The number of entries.
    pub fn len(&self) -> (n: usize)
        ensures
            n == self.seq().len(),
            n == self@.dom().len(),
    {
        proof {
            use_type_invariant(self);
            self.lemma_seq();
        }
        self.entries.len()
    }

    /// Whether the map holds no entry.
    pub fn is_empty(&self) -> (b: bool)
        ensures
            b == (self.seq().len() == 0),
            b == (self@ == Map::<K, V>::empty()),
    {
        proof {
            use_type_invariant(self);
            self.lemma_seq();
            if self.seq().len() == 0 {
                assert(self@ =~= Map::<K, V>::empty());
            }
        }
        self.entries.len() == 0
    }

    /// The key of the entry at position `i` of the ascending order.
    pub fn key_at(&self, i: usize) -> (k: K)
        requires
            i < self.seq().len(),
        ensures
            k == self.seq()[i as int].0,
    {
        proof {
            use_type_invariant(self);
        }
        self.entries[i].0
    }

    /// The value of the entry at position `i` of the ascending order.
    pub fn value_at(&self, i: usize) -> (v: &V)
        requires
            i < self.seq().len(),
        ensures
            *v == self.seq()[i as int].1,
    {
        proof {
            use_type_invariant(self);
        }
        &self.entries[i].1
    }

    /// Where `key` stands among the entries: the position of its entry, or
    /// the position at which an entry for it belongs.
    fn position(&self, key: &K) -> (r: Result<usize, usize>)
        ensures
            match r {
                Ok(i) => i < self.seq().len() && self.seq()[i as int].0 == *key,
                Err(i) => {
                    &&& i <= self.seq().len()
                    &&& forall|j: int| 0 <= j < i ==> (#[trigger] self.seq()[j]).0.rank() < key.rank()
                    &&& forall|j: int|
                        i <= j < self.seq().len() ==> key.rank() < (#[trigger] self.seq()[j]).0.rank()
                },
            },
    {
        proof {
            use_type_invariant(self);
        }
        let mut lo: usize = 0;
        let mut hi: usize = self.entries.len();
        while lo < hi
            invariant
                lo <= hi <= self.entries@.len(),
                ascending(self.entries@),
                self.seq() == self.entries@,
                forall|j: int| 0 <= j < lo ==> (#[trigger] self.entries@[j]).0.rank() < key.rank(),
                forall|j: int|
                    hi <= j < self.entries@.len() ==> key.rank() < (#[trigger] self.entries@[j]).0.rank(),
            decreases hi - lo,
        {
            let mid: usize = lo + (hi - lo) / 2;
            let probe: K = self.entries[mid].0;
            if probe.precedes(key) {
                lo = mid + 1;
            } else if key.precedes(&probe) {
                hi = mid;
            } else {
                proof {
                    K::lemma_rank_injective(probe, *key);
                }
                return Ok(mid);
            }
        }
        Err(lo)
    }

    /// The value under `key`, if the map holds one.
    pub fn get(&self, key: &K) -> (r: Option<&V>)
        ensures
            match r {
                Some(v) => self@.contains_key(*key) && *v == self@[*key],
                None => !self@.contains_key(*key),
            },
    {
        proof {
            use_type_invariant(self);
            self.lemma_seq();
        }
        match self.position(key) {
            Ok(i) => Some(&self.entries[i].1),
            Err(i) => {
                proof {
                    if self@.contains_key(*key) {
                        let j = choose|j: int|
                            0 <= j < self.seq().len() && (#[trigger] self.seq()[j]).0 == *key;
                        assert(self.seq()[j].0.rank() == key.rank());
                    }
                }
                None
            },
        }
    }

    /// Whether the map holds a value under `key`.
    pub fn contains_key(&self, key: &K) -> (b: bool)
        ensures
            b == self@.contains_key(*key),
    {
        self.get(key).is_some()
    }

    /// Puts `value` under `key` and returns what stood there before.
    pub fn insert(&mut self, key: K, value: V) -> (previous: Option<V>)
        ensures
            final(self)@ == old(self)@.insert(key, value),
            previous == (if old(self)@.contains_key(key) {
                Some(old(self)@[key])
            } else {
                None
            }),
    {
        proof {
            use_type_invariant(&*self);
            self.lemma_seq();
        }
        let ghost before = self.entries@;
        let found = self.position(&key);
        let mut entries: Vec<(K, V)> = Vec::new();
        std::mem::swap(&mut self.entries, &mut entries);
        let previous = match found {
            Ok(i) => {
                proof {
                    lemma_replace_at(before, i as int, value);
                }
                let mut entry: (K, V) = (key, value);
                std::mem::swap(&mut entries[i], &mut entry);
                Some(entry.1)
            },
            Err(i) => {
                proof {
                    lemma_insert_at(before, i as int, key, value);
                    if old(self)@.contains_key(key) {
                        let j = choose|j: int|
                            0 <= j < before.len() && (#[trigger] before[j]).0 == key;
                        assert(before[j].0.rank() == key.rank());
                    }
                }
                entries.insert(i, (key, value));
                None
            },
        };
        self.entries = entries;
        previous
    }

    /// Takes the entry under `key` out of the map and returns its value, if
    /// the map held one.
    pub fn remove(&mut self, key: &K) -> (previous: Option<V>)
        ensures
            final(self)@ == old(self)@.remove(*key),
            previous == old(self)@.get(*key),
    {
        proof {
            use_type_invariant(&*self);
            self.lemma_seq();
        }
        let ghost before = self.entries@;
        match self.position(key) {
            Ok(i) => {
                proof {
                    lemma_remove_at(before, i as int);
                }
                let mut entries: Vec<(K, V)> = Vec::new();
                std::mem::swap(&mut self.entries, &mut entries);
                let entry = entries.remove(i);
                self.entries = entries;
                Some(entry.1)
            },
            Err(i) => {
                proof {
                    if old(self)@.contains_key(*key) {
                        let j = choose|j: int|
                            0 <= j < before.len() && (#[trigger] before[j]).0 == *key;
                        assert(before[j].0.rank() == key.rank());
                    }
                    assert(old(self)@.remove(*key) =~= old(self)@);
                }
                None
            },
        }
    }

    /// The keys in ascending order.
    pub fn keys(&self) -> (ks: Vec<K>)
        ensures
            ks@ == self.key_seq(),
    {
        proof {
            use_type_invariant(self);
        }
        let mut ks: Vec<K> = Vec::new();
        let mut i: usize = 0;
        while i < self.entries.len()
            invariant
                i <= self.entries@.len(),
                self.seq() == self.entries@,
                ks@.len() == i,
                forall|j: int| 0 <= j < i ==> ks@[j] == (#[trigger] self.entries@[j]).0,
            decreases self.entries@.len() - i,
        {
            ks.push(self.entries[i].0);
            i += 1;
        }
        proof {
            assert(ks@ =~= self.key_seq());
        }
        ks
    }
}

impl<K: Key, V: View> OrdMap<K, V> {
    /// The map with every value replaced by its view.
    pub open spec fn model(self) -> Map<K, V::V> {
        self@.map_values(|v: V| v@)
    }
}

impl<K: Key, V: Clone> Clone for OrdMap<K, V> {
    /// A map with the same keys, each value cloned.
    fn clone(&self) -> (m: Self)
        ensures
            m.seq().len() == self.seq().len(),
            forall|i: int|
                0 <= i < m.seq().len() ==> (#[trigger] m.seq()[i]).0 == self.seq()[i].0 && cloned::<
                    V,
                >(self.seq()[i].1, m.seq()[i].1),
    {
        proof {
            use_type_invariant(self);
        }
        let mut entries: Vec<(K, V)> = Vec::new();
        let mut i: usize = 0;
        while i < self.entries.len()
            invariant
                i <= self.entries@.len(),
                entries@.len() == i,
                forall|j: int|
                    0 <= j < i ==> (#[trigger] entries@[j]).0 == self.entries@[j].0 && cloned::<V>(
                        self.entries@[j].1,
                        entries@[j].1,
                    ),
            decreases self.entries@.len() - i,
        {
            let value = self.entries[i].1.clone();
            entries.push((self.entries[i].0, value));
            i += 1;
        }
        proof {
            assert forall|a: int, b: int| 0 <= a < b < entries@.len() implies (#[trigger] entries@[a]).0.rank()
                < (#[trigger] entries@[b]).0.rank() by {
                assert(self.entries@[a].0.rank() < self.entries@[b].0.rank());
            }
        }
        OrdMap { entries }
    }
}

} // verus!

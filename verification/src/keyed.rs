//! Maps and sets keyed by string IDs. Entries are kept in ascending key order
//! so that every walk over them visits the same entries in the same order on
//! every machine.
//!
//! The model of a map is the sequence of its entries; `as_map` reads that
//! sequence as a key-to-value map in which the first entry carrying a key is
//! the one that counts. Every operation here keeps keys unique, so in practice
//! there is only ever one.

use vstd::prelude::*;

use crate::text::{lemma_seq_lt_irreflexive, lemma_seq_lt_total, lemma_seq_lt_transitive, seq_lt, str_eq, str_lt};

verus! {

/// Keys in strictly ascending order, by code point.
pub open spec fn ascending(keys: Seq<Seq<char>>) -> bool {
    forall|i: int, j: int| 0 <= i < j < keys.len() ==> seq_lt(#[trigger] keys[i], #[trigger] keys[j])
}

/// Keys in ascending order are unique.
pub proof fn lemma_ascending_unique(keys: Seq<Seq<char>>)
    requires
        ascending(keys),
    ensures
        keys.no_duplicates(),
{
    assert forall|i: int, j: int| 0 <= i < keys.len() && 0 <= j < keys.len() && i != j implies keys[i] != keys[j] by {
        lemma_seq_lt_irreflexive(keys[i]);
        if i < j {
            assert(seq_lt(keys[i], keys[j]));
        } else {
            assert(seq_lt(keys[j], keys[i]));
        }
    }
}

/// Whether some entry carries key `k`.
pub open spec fn has_key<V>(s: Seq<(Seq<char>, V)>, k: Seq<char>) -> bool {
    exists|i: int| 0 <= i < s.len() && #[trigger] s[i].0 == k
}

/// `i` is the first position that carries key `k`.
pub open spec fn first_at<V>(s: Seq<(Seq<char>, V)>, k: Seq<char>, i: int) -> bool {
    &&& 0 <= i < s.len()
    &&& s[i].0 == k
    &&& forall|j: int| 0 <= j < i ==> #[trigger] s[j].0 != k
}

/// The key-to-value reading of an entry sequence: the first entry with a key
/// gives its value.
pub open spec fn as_map<V>(s: Seq<(Seq<char>, V)>) -> Map<Seq<char>, V>
    decreases s.len(),
{
    if s.len() == 0 {
        Map::empty()
    } else {
        let m = as_map(s.drop_last());
        if m.contains_key(s.last().0) {
            m
        } else {
            m.insert(s.last().0, s.last().1)
        }
    }
}

/// The keys, in order.
pub open spec fn keys_of<V>(s: Seq<(Seq<char>, V)>) -> Seq<Seq<char>> {
    s.map_values(|e: (Seq<char>, V)| e.0)
}

/// A key is in the map exactly when some entry carries it.
pub proof fn lemma_as_map_dom<V>(s: Seq<(Seq<char>, V)>, k: Seq<char>)
    ensures
        as_map(s).contains_key(k) <==> has_key(s, k),
    decreases s.len(),
{
    if s.len() > 0 {
        let t = s.drop_last();
        lemma_as_map_dom(t, k);
        if has_key(t, k) {
            let i = choose|i: int| 0 <= i < t.len() && #[trigger] t[i].0 == k;
            assert(s[i].0 == k);
        }
        if has_key(s, k) && !has_key(t, k) {
            let i = choose|i: int| 0 <= i < s.len() && #[trigger] s[i].0 == k;
            if i < t.len() {
                assert(t[i].0 == k);
            }
        }
    }
}

/// The value the map gives a key is the one at its first entry.
pub proof fn lemma_as_map_value<V>(s: Seq<(Seq<char>, V)>, k: Seq<char>, i: int)
    requires
        first_at(s, k, i),
    ensures
        as_map(s).contains_key(k),
        as_map(s)[k] == s[i].1,
    decreases s.len(),
{
    let t = s.drop_last();
    if i < s.len() - 1 {
        assert(first_at(t, k, i));
        lemma_as_map_value(t, k, i);
    } else {
        lemma_as_map_dom(t, k);
        if has_key(t, k) {
            let j = choose|j: int| 0 <= j < t.len() && #[trigger] t[j].0 == k;
            assert(s[j].0 == k);
        }
    }
}

/// An entry sequence and its map hold the same keys, and where no key
/// repeats, each entry's value is the one the map gives its key.
pub proof fn lemma_entries_map<V>(s: Seq<(Seq<char>, V)>)
    ensures
        forall|i: int| 0 <= i < s.len() ==> as_map(s).contains_key(#[trigger] s[i].0),
        forall|k: Seq<char>| as_map(s).contains_key(k) ==> keys_of(s).contains(k),
        keys_of(s).no_duplicates() ==> forall|i: int| #![trigger s[i]] 0 <= i < s.len() ==> as_map(s)[s[i].0] == s[i].1,
{
    assert forall|i: int| 0 <= i < s.len() implies as_map(s).contains_key(#[trigger] s[i].0) by {
        lemma_as_map_dom(s, s[i].0);
    }
    assert forall|k: Seq<char>| as_map(s).contains_key(k) implies keys_of(s).contains(k) by {
        lemma_as_map_dom(s, k);
        let i = choose|i: int| 0 <= i < s.len() && #[trigger] s[i].0 == k;
        assert(keys_of(s)[i] == k);
    }
    if keys_of(s).no_duplicates() {
        assert forall|i: int| #![trigger s[i]] 0 <= i < s.len() implies as_map(s)[s[i].0] == s[i].1 by {
            assert forall|j: int| 0 <= j < i implies #[trigger] s[j].0 != s[i].0 by {
                assert(keys_of(s)[j] != keys_of(s)[i]);
            }
            lemma_as_map_value(s, s[i].0, i);
        }
    }
}

/// A first position exists for every key an entry carries, and it is unique.
pub proof fn lemma_first_exists<V>(s: Seq<(Seq<char>, V)>, k: Seq<char>) -> (i: int)
    requires
        has_key(s, k),
    ensures
        first_at(s, k, i),
    decreases s.len(),
{
    let t = s.drop_last();
    if has_key(t, k) {
        let i = lemma_first_exists(t, k);
        assert forall|j: int| 0 <= j < i implies #[trigger] s[j].0 != k by {
            assert(t[j] == s[j]);
        }
        assert(t[i] == s[i]);
        i
    } else {
        let j = choose|j: int| 0 <= j < s.len() && #[trigger] s[j].0 == k;
        if j < t.len() {
            assert(t[j].0 == k);
        }
        assert forall|m: int| 0 <= m < s.len() - 1 implies #[trigger] s[m].0 != k by {
            if s[m].0 == k {
                assert(t[m].0 == k);
            }
        }
        s.len() - 1
    }
}

/// Putting a key no entry carries at any position adds that key.
pub proof fn lemma_insert_new<V>(s: Seq<(Seq<char>, V)>, p: int, k: Seq<char>, v: V)
    requires
        !has_key(s, k),
        0 <= p <= s.len(),
    ensures
        as_map(s.insert(p, (k, v))) == as_map(s).insert(k, v),
    decreases s.len(),
{
    if p == s.len() {
        assert(s.insert(p, (k, v)).drop_last() =~= s);
        lemma_as_map_dom(s, k);
    } else {
        let t = s.drop_last();
        let l = s.last();
        assert(!has_key(t, k)) by {
            if has_key(t, k) {
                let i = choose|i: int| 0 <= i < t.len() && #[trigger] t[i].0 == k;
                assert(s[i].0 == k);
            }
        }
        assert(l.0 != k) by {
            assert(s[s.len() - 1].0 == l.0);
        }
        lemma_insert_new(t, p, k, v);
        let u = s.insert(p, (k, v));
        assert(u.drop_last() =~= t.insert(p, (k, v)));
        assert(u.last() == l);
        let m = as_map(t);
        if m.contains_key(l.0) {
            assert(as_map(u) =~= as_map(s).insert(k, v));
        } else {
            assert(m.insert(k, v).insert(l.0, l.1) =~= m.insert(l.0, l.1).insert(k, v));
        }
    }
}

/// Overwriting the first entry of a key changes that key's value and nothing
/// else.
pub proof fn lemma_update_first<V>(s: Seq<(Seq<char>, V)>, f: int, k: Seq<char>, v: V)
    requires
        first_at(s, k, f),
    ensures
        as_map(s.update(f, (k, v))) == as_map(s).insert(k, v),
    decreases s.len(),
{
    let t = s.drop_last();
    let l = s.last();
    let u = s.update(f, (k, v));
    if f == s.len() - 1 {
        assert(u.drop_last() =~= t);
        assert(!has_key(t, k)) by {
            if has_key(t, k) {
                let i = choose|i: int| 0 <= i < t.len() && #[trigger] t[i].0 == k;
                assert(s[i].0 == k);
            }
        }
        lemma_as_map_dom(t, k);
        assert(as_map(u) =~= as_map(s).insert(k, v));
    } else {
        assert(first_at(t, k, f));
        lemma_update_first(t, f, k, v);
        assert(u.drop_last() =~= t.update(f, (k, v)));
        assert(u.last() == l);
        let m = as_map(t);
        lemma_as_map_value(t, k, f);
        if l.0 == k {
            assert(as_map(u) =~= as_map(s).insert(k, v));
        } else if m.contains_key(l.0) {
            assert(as_map(u) =~= as_map(s).insert(k, v));
        } else {
            assert(m.insert(k, v).insert(l.0, l.1) =~= m.insert(l.0, l.1).insert(k, v));
        }
    }
}

/// Dropping one entry carrying `k` changes nothing but, possibly, `k`.
pub proof fn lemma_remove_entry<V>(s: Seq<(Seq<char>, V)>, i: int, k: Seq<char>)
    requires
        0 <= i < s.len(),
        s[i].0 == k,
    ensures
        as_map(s.remove(i)).remove(k) == as_map(s).remove(k),
    decreases s.len(),
{
    let t = s.drop_last();
    let l = s.last();
    let u = s.remove(i);
    if i == s.len() - 1 {
        assert(u =~= t);
        let m = as_map(t);
        assert(as_map(s).remove(k) =~= m.remove(k));
    } else {
        lemma_remove_entry(t, i, k);
        assert(u.drop_last() =~= t.remove(i));
        assert(u.last() == l);
        let m = as_map(t);
        let mu = as_map(t.remove(i));
        lemma_as_map_dom(t, l.0);
        lemma_as_map_dom(t.remove(i), l.0);
        if l.0 == k {
            assert(as_map(u).remove(k) =~= mu.remove(k));
            assert(as_map(s).remove(k) =~= m.remove(k));
        } else {
            assert(mu.remove(k).contains_key(l.0) == m.remove(k).contains_key(l.0));
            if m.contains_key(l.0) {
                assert(mu.contains_key(l.0));
                assert(as_map(u).remove(k) =~= as_map(s).remove(k));
            } else {
                assert(!mu.contains_key(l.0));
                assert(as_map(u).remove(k) =~= mu.insert(l.0, l.1).remove(k));
                assert(mu.insert(l.0, l.1).remove(k) =~= mu.remove(k).insert(l.0, l.1));
                assert(m.insert(l.0, l.1).remove(k) =~= m.remove(k).insert(l.0, l.1));
            }
        }
    }
}

/// A map from string keys to values, ascending by key.
#[derive(Debug, Clone, PartialEq, Eq, Default)]
pub struct StrMap<V> {
    entries: Vec<(String, V)>,
}

impl<V> View for StrMap<V> {
    type V = Seq<(Seq<char>, V)>;

    closed spec fn view(&self) -> Seq<(Seq<char>, V)> {
        self.entries@.map_values(|e: (String, V)| (e.0@, e.1))
    }
}

impl<V> StrMap<V> {
    /// The key-to-value reading of this map.
    pub open spec fn contents(&self) -> Map<Seq<char>, V> {
        as_map(self@)
    }

    pub fn new() -> (m: Self)
        ensures
            m@ == Seq::<(Seq<char>, V)>::empty(),
            m.contents() == Map::<Seq<char>, V>::empty(),
            keys_of(m@).no_duplicates(),
            ascending(keys_of(m@)),
    {
        let m = StrMap { entries: Vec::new() };
        assert(m@ =~= Seq::<(Seq<char>, V)>::empty());
        m
    }

    pub fn len(&self) -> (n: usize)
        ensures
            n == self@.len(),
    {
        self.entries.len()
    }

    pub fn is_empty(&self) -> (r: bool)
        ensures
            r == (self@.len() == 0),
    {
        self.entries.len() == 0
    }

    /// The key at position `i`, in ascending order.
    pub fn key_at(&self, i: usize) -> (k: &String)
        requires
            i < self@.len(),
        ensures
            k@ == self@[i as int].0,
    {
        &self.entries[i].0
    }

    /// The value at position `i`, in ascending key order.
    pub fn value_at(&self, i: usize) -> (v: &V)
        requires
            i < self@.len(),
        ensures
            *v == self@[i as int].1,
    {
        &self.entries[i].1
    }

    /// The value at position `i`, for changing in place. Keys do not move.
    pub fn value_at_mut(&mut self, i: usize) -> (v: &mut V)
        requires
            i < old(self)@.len(),
        ensures
            *v == old(self)@[i as int].1,
            final(self)@ == old(self)@.update(i as int, (old(self)@[i as int].0, *final(v))),
    {
        proof {
            assert(self.entries@[i as int].0@ == self@[i as int].0);
        }
        let ghost before = self.entries@;
        let r = &mut self.entries[i].1;
        proof {
            assert(after_borrow(self.entries)@ =~= before.update(i as int, (before[i as int].0, *final(r))));
            assert(after_borrow(*self)@ =~= old(self)@.update(i as int, (old(self)@[i as int].0, *final(r))));
        }
        r
    }

    /// Where `key` first sits, if anywhere.
    pub fn find(&self, key: &str) -> (r: Option<usize>)
        ensures
            match r {
                Some(i) => first_at(self@, key@, i as int),
                None => !has_key(self@, key@),
            },
    {
        let mut i: usize = 0;
        while i < self.entries.len()
            invariant
                i <= self@.len(),
                self@.len() == self.entries@.len(),
                forall|j: int| 0 <= j < i ==> #[trigger] self@[j].0 != key@,
            decreases self.entries@.len() - i,
        {
            if str_eq(self.entries[i].0.as_str(), key) {
                return Some(i);
            }
            i = i + 1;
        }
        proof {
            if has_key(self@, key@) {
                let j = choose|j: int| 0 <= j < self@.len() && #[trigger] self@[j].0 == key@;
                assert(self@[j].0 != key@);
            }
        }
        None
    }

    pub fn contains_key(&self, key: &str) -> (r: bool)
        ensures
            r == self.contents().contains_key(key@),
    {
        proof {
            lemma_as_map_dom(self@, key@);
        }
        match self.find(key) {
            Some(i) => {
                assert(self@[i as int].0 == key@);
                true
            },
            None => false,
        }
    }

    pub fn get(&self, key: &str) -> (r: Option<&V>)
        ensures
            match r {
                Some(v) => self.contents().contains_key(key@) && *v == self.contents()[key@],
                None => !self.contents().contains_key(key@),
            },
    {
        proof {
            lemma_as_map_dom(self@, key@);
        }
        match self.find(key) {
            Some(i) => {
                proof {
                    lemma_as_map_value(self@, key@, i as int);
                }
                Some(&self.entries[i].1)
            },
            None => None,
        }
    }

    /// The value under `key`, for changing in place.
    pub fn get_mut(&mut self, key: &str) -> (r: Option<&mut V>)
        ensures
            match r {
                Some(v) => {
                    &&& old(self).contents().contains_key(key@)
                    &&& *v == old(self).contents()[key@]
                    &&& final(self).contents() == old(self).contents().insert(key@, *final(v))
                    &&& keys_of(final(self)@) == keys_of(old(self)@)
                },
                None => {
                    &&& !old(self).contents().contains_key(key@)
                    &&& *final(self) == *old(self)
                },
            },
    {
        proof {
            lemma_as_map_dom(self@, key@);
        }
        match self.find(key) {
            Some(i) => {
                proof {
                    lemma_as_map_value(self@, key@, i as int);
                }
                let ghost s = self@;
                let r = self.value_at_mut(i);
                proof {
                    let u = s.update(i as int, (s[i as int].0, *final(r)));
                    assert(s[i as int].0 == key@);
                    lemma_update_first(s, i as int, key@, *final(r));
                    assert(keys_of(u) =~= keys_of(s));
                }
                Some(r)
            },
            None => None,
        }
    }

    /// Set `key` to `value`: the entry of that key is replaced in place, or a
    /// new entry goes in at its place in ascending order.
    pub fn insert(&mut self, key: String, value: V)
        ensures
            final(self).contents() == old(self).contents().insert(key@, value),
            final(self)@.len() == old(self)@.len() + if old(self).contents().contains_key(key@) {
                0int
            } else {
                1int
            },
            keys_of(old(self)@).no_duplicates() ==> keys_of(final(self)@).no_duplicates(),
            ascending(keys_of(old(self)@)) ==> ascending(keys_of(final(self)@)),
    {
        proof {
            lemma_as_map_dom(self@, key@);
        }
        let ghost s = self@;
        match self.find(key.as_str()) {
            Some(f) => {
                let ghost k = key@;
                let _old = self.entries.remove(f);
                self.entries.insert(f, (key, value));
                proof {
                    assert(self@ =~= s.update(f as int, (k, value)));
                    lemma_update_first(s, f as int, k, value);
                    assert(keys_of(self@) =~= keys_of(s));
                }
            },
            None => {
                let mut p: usize = 0;
                while p < self.entries.len()
                    invariant
                        p <= self.entries@.len(),
                        self@ == s,
                        forall|q: int| 0 <= q < p ==> !seq_lt(key@, #[trigger] s[q].0),
                    ensures
                        p <= self.entries@.len(),
                        self@ == s,
                        forall|q: int| 0 <= q < p ==> !seq_lt(key@, #[trigger] s[q].0),
                        p < self.entries@.len() ==> seq_lt(key@, s[p as int].0),
                    decreases self.entries@.len() - p,
                {
                    if str_lt(key.as_str(), self.entries[p].0.as_str()) {
                        break;
                    }
                    p = p + 1;
                }
                let ghost k = key@;
                self.entries.insert(p, (key, value));
                proof {
                    assert(self@ =~= s.insert(p as int, (k, value)));
                    lemma_insert_new(s, p as int, k, value);
                    assert(keys_of(self@) =~= keys_of(s).insert(p as int, k));
                    if ascending(keys_of(s)) {
                        let e = keys_of(self@);
                        assert(!has_key(s, k));
                        assert forall|i: int, j: int| 0 <= i < j < e.len() implies seq_lt(#[trigger] e[i], #[trigger] e[j]) by {
                            if j < p {
                                assert(e[i] == keys_of(s)[i] && e[j] == keys_of(s)[j]);
                            } else if i > p {
                                assert(e[i] == keys_of(s)[i - 1] && e[j] == keys_of(s)[j - 1]);
                            } else if i == p {
                                assert(e[j] == s[j - 1].0);
                                assert(seq_lt(k, s[p as int].0));
                                if j - 1 > p {
                                    assert(seq_lt(keys_of(s)[p as int], keys_of(s)[j - 1]));
                                    lemma_seq_lt_transitive(k, s[p as int].0, s[j - 1].0);
                                }
                            } else if j == p {
                                assert(e[i] == s[i].0);
                                assert(!seq_lt(k, s[i].0));
                                assert(s[i].0 != k);
                                lemma_seq_lt_total(k, s[i].0);
                            } else {
                                assert(e[i] == keys_of(s)[i] && e[j] == keys_of(s)[j - 1]);
                            }
                        }
                    }
                    if keys_of(s).no_duplicates() {
                        assert forall|i: int, j: int|
                            0 <= i < keys_of(self@).len() && 0 <= j < keys_of(self@).len() && i != j implies keys_of(self@)[i]
                            != keys_of(self@)[j] by {
                            if keys_of(self@)[i] == k {
                                assert(i == p) by {
                                    if i < p {
                                        assert(s[i].0 == k);
                                    } else if i > p {
                                        assert(s[i - 1].0 == k);
                                    }
                                }
                            }
                            if keys_of(self@)[j] == k {
                                assert(j == p) by {
                                    if j < p {
                                        assert(s[j].0 == k);
                                    } else if j > p {
                                        assert(s[j - 1].0 == k);
                                    }
                                }
                            }
                        }
                    }
                }
            },
        }
    }

    /// Drop every entry carrying `key`.
    pub fn remove(&mut self, key: &str) -> (r: bool)
        ensures
            r == old(self).contents().contains_key(key@),
            final(self).contents() == old(self).contents().remove(key@),
            keys_of(old(self)@).no_duplicates() ==> keys_of(final(self)@).no_duplicates(),
            ascending(keys_of(old(self)@)) ==> ascending(keys_of(final(self)@)),
    {
        let ghost s = self@;
        proof {
            lemma_as_map_dom(s, key@);
        }
        let mut found = false;
        let mut i: usize = 0;
        while i < self.entries.len()
            invariant
                i <= self.entries@.len(),
                self@.len() == self.entries@.len(),
                as_map(self@).remove(key@) == as_map(s).remove(key@),
                forall|j: int| 0 <= j < i ==> #[trigger] self@[j].0 != key@,
                found == (has_key(s, key@) && !has_key(self@, key@)) || (found && has_key(s, key@)),
                !found ==> (has_key(self@, key@) == has_key(s, key@)),
                keys_of(s).no_duplicates() ==> keys_of(self@).no_duplicates(),
                ascending(keys_of(s)) ==> ascending(keys_of(self@)),
            decreases self.entries@.len() - i,
        {
            if str_eq(self.entries[i].0.as_str(), key) {
                let ghost before = self@;
                let _gone = self.entries.remove(i);
                proof {
                    assert(self@ =~= before.remove(i as int));
                    lemma_remove_entry(before, i as int, key@);
                    assert(before[i as int].0 == key@);
                    assert(keys_of(self@) =~= keys_of(before).remove(i as int));
                    if ascending(keys_of(s)) {
                        let kb = keys_of(before);
                        let ka = keys_of(self@);
                        assert forall|a: int, b: int| 0 <= a < b < ka.len() implies seq_lt(#[trigger] ka[a], #[trigger] ka[b]) by {
                            if b < i {
                                assert(ka[a] == kb[a] && ka[b] == kb[b]);
                            } else if a < i {
                                assert(ka[a] == kb[a] && ka[b] == kb[b + 1]);
                            } else {
                                assert(ka[a] == kb[a + 1] && ka[b] == kb[b + 1]);
                            }
                        }
                    }
                }
                found = true;
            } else {
                i = i + 1;
            }
        }
        proof {
            assert(!has_key(self@, key@)) by {
                if has_key(self@, key@) {
                    let j = choose|j: int| 0 <= j < self@.len() && #[trigger] self@[j].0 == key@;
                    assert(self@[j].0 != key@);
                }
            }
            lemma_as_map_dom(self@, key@);
            assert(as_map(self@).remove(key@) =~= as_map(self@));
        }
        found
    }

    /// Drop every entry.
    pub fn clear(&mut self)
        ensures
            final(self)@ == Seq::<(Seq<char>, V)>::empty(),
            final(self).contents() == Map::<Seq<char>, V>::empty(),
            keys_of(final(self)@).no_duplicates(),
            ascending(keys_of(final(self)@)),
    {
        self.entries.clear();
        assert(self@ =~= Seq::<(Seq<char>, V)>::empty());
    }

    /// Every key, in order.
    pub fn keys(&self) -> (r: Vec<String>)
        ensures
            r@.len() == self@.len(),
            forall|i: int| 0 <= i < r@.len() ==> #[trigger] r@[i]@ == self@[i].0,
    {
        let mut r: Vec<String> = Vec::new();
        let mut i: usize = 0;
        while i < self.entries.len()
            invariant
                i <= self.entries@.len(),
                self@.len() == self.entries@.len(),
                r@.len() == i,
                forall|j: int| 0 <= j < i ==> #[trigger] r@[j]@ == self@[j].0,
            decreases self.entries@.len() - i,
        {
            r.push(self.entries[i].0.clone());
            i = i + 1;
        }
        r
    }
}

impl<V: Copy> StrMap<V> {
    /// An entry-for-entry copy.
    pub fn duplicate(&self) -> (r: Self)
        ensures
            r@ == self@,
    {
        let mut entries: Vec<(String, V)> = Vec::new();
        let mut i: usize = 0;
        while i < self.entries.len()
            invariant
                i <= self.entries@.len(),
                entries@.len() == i,
                forall|j: int| 0 <= j < i ==> #[trigger] entries@[j].0@ == self.entries@[j].0@ && entries@[j].1 == self.entries@[j].1,
            decreases self.entries@.len() - i,
        {
            let k = self.entries[i].0.clone();
            let v = self.entries[i].1;
            entries.push((k, v));
            i = i + 1;
        }
        let r = StrMap { entries };
        assert(r@ =~= self@);
        r
    }
}

/// A set of string IDs, ascending.
#[derive(Debug, Clone, PartialEq, Eq, Default)]
pub struct StrSet {
    map: StrMap<()>,
}

impl View for StrSet {
    type V = Set<Seq<char>>;

    closed spec fn view(&self) -> Set<Seq<char>> {
        self.map.contents().dom()
    }
}

impl StrSet {
    /// The members, in ascending order, as the set walks them.
    pub closed spec fn order(&self) -> Seq<Seq<char>> {
        keys_of(self.map@)
    }

    pub proof fn lemma_order(&self)
        ensures
            forall|i: int| 0 <= i < self.order().len() ==> self@.contains(#[trigger] self.order()[i]),
            forall|k: Seq<char>| self@.contains(k) ==> self.order().contains(k),
    {
        assert forall|i: int| 0 <= i < self.order().len() implies self@.contains(#[trigger] self.order()[i]) by {
            assert(self.map@[i].0 == self.order()[i]);
            lemma_as_map_dom(self.map@, self.order()[i]);
        }
        assert forall|k: Seq<char>| self@.contains(k) implies self.order().contains(k) by {
            lemma_as_map_dom(self.map@, k);
            let i = choose|i: int| 0 <= i < self.map@.len() && #[trigger] self.map@[i].0 == k;
            assert(self.order()[i] == k);
        }
    }

    pub fn new() -> (s: Self)
        ensures
            s@ == Set::<Seq<char>>::empty(),
            s.order().len() == 0,
            ascending(s.order()),
    {
        let s = StrSet { map: StrMap::new() };
        assert(s@ =~= Set::<Seq<char>>::empty());
        s
    }

    pub fn len(&self) -> (n: usize)
        ensures
            n == self.order().len(),
    {
        self.map.len()
    }

    pub fn is_empty(&self) -> (r: bool)
        ensures
            r == (self@ == Set::<Seq<char>>::empty()),
    {
        proof {
            self.lemma_order();
            if self.order().len() > 0 {
                assert(self@.contains(self.order()[0]));
            }
        }
        self.map.len() == 0
    }

    /// The member at position `i` of the ascending walk.
    pub fn at(&self, i: usize) -> (k: &String)
        requires
            i < self.order().len(),
        ensures
            k@ == self.order()[i as int],
            self@.contains(k@),
    {
        proof {
            self.lemma_order();
            assert(self.order()[i as int] == self.map@[i as int].0);
        }
        self.map.key_at(i)
    }

    pub fn contains(&self, key: &str) -> (r: bool)
        ensures
            r == self@.contains(key@),
    {
        self.map.contains_key(key)
    }

    /// Add `key`; whether it was new.
    pub fn insert(&mut self, key: String) -> (r: bool)
        ensures
            final(self)@ == old(self)@.insert(key@),
            r == !old(self)@.contains(key@),
            final(self).order().len() == old(self).order().len() + if r { 1int } else { 0int },
            ascending(old(self).order()) ==> ascending(final(self).order()),
    {
        let ghost k = key@;
        let was = self.map.contains_key(key.as_str());
        self.map.insert(key, ());
        assert(self@ =~= old(self)@.insert(k));
        !was
    }

    /// Take `key` out; whether it was there.
    pub fn remove(&mut self, key: &str) -> (r: bool)
        ensures
            final(self)@ == old(self)@.remove(key@),
            r == old(self)@.contains(key@),
            ascending(old(self).order()) ==> ascending(final(self).order()),
    {
        let r = self.map.remove(key);
        assert(self@ =~= old(self)@.remove(key@));
        r
    }

    pub fn clear(&mut self)
        ensures
            final(self)@ == Set::<Seq<char>>::empty(),
            final(self).order().len() == 0,
            ascending(final(self).order()),
    {
        self.map.clear();
        assert(self@ =~= Set::<Seq<char>>::empty());
    }

    /// Every member, ascending.
    pub fn ids(&self) -> (r: Vec<String>)
        ensures
            r@.len() == self.order().len(),
            forall|i: int| 0 <= i < r@.len() ==> #[trigger] r@[i]@ == self.order()[i],
    {
        self.map.keys()
    }
}

} // verus!

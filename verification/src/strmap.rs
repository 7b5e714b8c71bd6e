//! `StrMap<V>`: a map keyed by strings that keeps its entries in insertion order.
//!
//! Looking up a key finds its first entry; `insert` replaces the value of an
//! existing key in place and appends a new key at the end, so a map built with
//! `insert` never holds a key twice.
use vstd::prelude::*;

use crate::text::str_equal;

verus! {

/// The entries of a map as plain values: key characters and value, in order.
pub type Entries<V> = Seq<(Seq<char>, V)>;

/// `k` is the key of some entry.
pub open spec fn has_key<V>(e: Entries<V>, k: Seq<char>) -> bool {
    exists|i: int| 0 <= i < e.len() && (#[trigger] e[i]).0 == k
}

/// `i` is the first entry whose key is `k`.
pub open spec fn is_first_key<V>(e: Entries<V>, k: Seq<char>, i: int) -> bool {
    &&& 0 <= i < e.len()
    &&& e[i].0 == k
    &&& forall|j: int| 0 <= j < i ==> (#[trigger] e[j]).0 != k
}

/// The index of the first entry whose key is `k`, or -1 where there is none.
pub open spec fn key_index<V>(e: Entries<V>, k: Seq<char>) -> int {
    if has_key(e, k) {
        choose|i: int| is_first_key(e, k, i)
    } else {
        -1
    }
}

/// No key occurs twice.
pub open spec fn keys_distinct<V>(e: Entries<V>) -> bool {
    forall|i: int, j: int| 0 <= i < j < e.len() ==> (#[trigger] e[i]).0 != (#[trigger] e[j]).0
}

/// The entries after inserting `k => v`: an existing key keeps its place and
/// gets the new value, a new key goes last.
pub open spec fn map_insert<V>(e: Entries<V>, k: Seq<char>, v: V) -> Entries<V> {
    let i = key_index(e, k);
    if i >= 0 {
        e.update(i, (k, v))
    } else {
        e.push((k, v))
    }
}

/// The value of the first entry with key `k`.
pub open spec fn map_get<V>(e: Entries<V>, k: Seq<char>) -> Option<V> {
    let i = key_index(e, k);
    if i >= 0 {
        Some(e[i].1)
    } else {
        None
    }
}

/// A first entry is the only first entry.
pub proof fn lemma_first_key_unique<V>(e: Entries<V>, k: Seq<char>, i: int)
    requires
        is_first_key(e, k, i),
    ensures
        key_index(e, k) == i,
{
    assert(has_key(e, k)) by {
        assert(e[i].0 == k);
    }
    let c = choose|c: int| is_first_key(e, k, c);
    assert(is_first_key(e, k, c));
    if c < i {
        assert(e[c].0 != k);
    }
    if i < c {
        assert(e[i].0 != k);
    }
}

/// Where no entry has key `k`, `key_index` is -1.
pub proof fn lemma_no_key<V>(e: Entries<V>, k: Seq<char>)
    requires
        forall|j: int| 0 <= j < e.len() ==> (#[trigger] e[j]).0 != k,
    ensures
        key_index(e, k) == -1,
        !has_key(e, k),
{
}

/// Where some entry has key `k`, `key_index` finds the first one.
pub proof fn lemma_key_index_found<V>(e: Entries<V>, k: Seq<char>, i: int)
    requires
        0 <= i < e.len(),
        e[i].0 == k,
    ensures
        0 <= key_index(e, k) <= i,
        is_first_key(e, k, key_index(e, k)),
    decreases i,
{
    if exists|j: int| 0 <= j < i && (#[trigger] e[j]).0 == k {
        let j = choose|j: int| 0 <= j < i && (#[trigger] e[j]).0 == k;
        lemma_key_index_found(e, k, j);
    } else {
        assert(is_first_key(e, k, i));
        lemma_first_key_unique(e, k, i);
    }
}

/// `key_index` is -1 exactly where no entry has the key, and is the first
/// entry with the key otherwise.
pub proof fn lemma_key_index<V>(e: Entries<V>, k: Seq<char>)
    ensures
        key_index(e, k) == -1 <==> !has_key(e, k),
        has_key(e, k) ==> is_first_key(e, k, key_index(e, k)),
        -1 <= key_index(e, k) < e.len(),
{
    if has_key(e, k) {
        let j = choose|j: int| 0 <= j < e.len() && (#[trigger] e[j]).0 == k;
        lemma_key_index_found(e, k, j);
    }
}

/// Distinct keys stay distinct after an insert.
pub proof fn lemma_insert_distinct<V>(e: Entries<V>, k: Seq<char>, v: V)
    requires
        keys_distinct(e),
    ensures
        keys_distinct(map_insert(e, k, v)),
{
    let r = map_insert(e, k, v);
    let i = key_index(e, k);
    lemma_key_index(e, k);
    if i >= 0 {
        assert forall|a: int, b: int| 0 <= a < b < r.len() implies (#[trigger] r[a]).0 != (
        #[trigger] r[b]).0 by {
            assert(r[a].0 == e[a].0);
            assert(r[b].0 == e[b].0);
        }
    } else {
        assert forall|a: int, b: int| 0 <= a < b < r.len() implies (#[trigger] r[a]).0 != (
        #[trigger] r[b]).0 by {
            if b == e.len() {
                assert(r[a] == e[a]);
            } else {
                assert(r[a] == e[a]);
                assert(r[b] == e[b]);
            }
        }
    }
}

/// A string-keyed map whose entries keep their insertion order.
#[derive(Debug)]
pub struct StrMap<V> {
    entries: Vec<(String, V)>,
}

impl<V> View for StrMap<V> {
    type V = Entries<V>;

    closed spec fn view(&self) -> Entries<V> {
        self.entries@.map_values(|e: (String, V)| (e.0@, e.1))
    }
}

impl<V> StrMap<V> {
    /// A map never holds a key twice.
    #[verifier::type_invariant]
    spec fn wf(self) -> bool {
        keys_distinct(self@)
    }

    /// An empty map.
    pub fn new() -> (res: Self)
        ensures
            res@ == Seq::<(Seq<char>, V)>::empty(),
            keys_distinct(res@),
    {
        let entries: Vec<(String, V)> = Vec::new();
        assert(entries@.map_values(|e: (String, V)| (e.0@, e.1)) =~= Seq::<(Seq<char>, V)>::empty());
        StrMap { entries }
    }

    /// Number of entries.
    pub fn len(&self) -> (res: usize)
        ensures
            res == self@.len(),
            keys_distinct(self@),
    {
        proof {
            use_type_invariant(self);
        }
        self.entries.len()
    }

    /// Whether the map has no entries.
    pub fn is_empty(&self) -> (res: bool)
        ensures
            res == (self@.len() == 0),
            keys_distinct(self@),
    {
        proof {
            use_type_invariant(self);
        }
        self.entries.len() == 0
    }

    /// The key of entry `i`.
    pub fn key_at(&self, i: usize) -> (res: &String)
        requires
            i < self@.len(),
        ensures
            res@ == self@[i as int].0,
    {
        &self.entries[i].0
    }

    /// The value of entry `i`.
    pub fn value_at(&self, i: usize) -> (res: &V)
        requires
            i < self@.len(),
        ensures
            *res == self@[i as int].1,
    {
        &self.entries[i].1
    }

    /// The index of the first entry with key `key`.
    pub fn find(&self, key: &str) -> (res: Option<usize>)
        ensures
            match res {
                Some(i) => i as int == key_index(self@, key@) && is_first_key(self@, key@, i as int),
                None => key_index(self@, key@) == -1 && !has_key(self@, key@),
            },
    {
        let mut i: usize = 0;
        while i < self.entries.len()
            invariant
                i <= self.entries@.len(),
                forall|j: int| 0 <= j < i ==> (#[trigger] self@[j]).0 != key@,
            decreases self.entries@.len() - i,
        {
            if str_equal(self.entries[i].0.as_str(), key) {
                proof {
                    assert(self@[i as int].0 == key@);
                    lemma_first_key_unique(self@, key@, i as int);
                }
                return Some(i);
            }
            assert(self@[i as int].0 != key@);
            i += 1;
        }
        proof {
            lemma_no_key(self@, key@);
        }
        None
    }

    /// Whether some entry has key `key`.
    pub fn contains_key(&self, key: &str) -> (res: bool)
        ensures
            res == has_key(self@, key@),
    {
        match self.find(key) {
            Some(i) => {
                assert(self@[i as int].0 == key@);
                true
            },
            None => false,
        }
    }

    /// The value stored under `key`.
    pub fn get(&self, key: &str) -> (res: Option<&V>)
        ensures
            match res {
                Some(v) => map_get(self@, key@) == Some(*v),
                None => map_get(self@, key@) is None,
            },
    {
        match self.find(key) {
            Some(i) => Some(&self.entries[i].1),
            None => None,
        }
    }

    /// Stores `value` under `key`, replacing the value of an existing key in place.
    pub fn insert(&mut self, key: String, value: V)
        ensures
            final(self)@ == map_insert(old(self)@, key@, value),
            keys_distinct(final(self)@),
    {
        proof {
            use_type_invariant(&*self);
            lemma_insert_distinct(old(self)@, key@, value);
        }
        let found = self.find(key.as_str());
        let mut entries: Vec<(String, V)> = Vec::new();
        std::mem::swap(&mut entries, &mut self.entries);
        let ghost before = entries@;
        let ghost k = key@;
        match found {
            Some(i) => {
                entries.set(i, (key, value));
            },
            None => {
                entries.push((key, value));
            },
        }
        proof {
            let v = entries@.map_values(|e: (String, V)| (e.0@, e.1));
            let bv = before.map_values(|e: (String, V)| (e.0@, e.1));
            assert(bv =~= old(self)@);
            match found {
                Some(i) => {
                    assert(v =~= bv.update(i as int, (k, value)));
                },
                None => {
                    assert(v =~= bv.push((k, value)));
                },
            }
        }
        self.entries = entries;
    }
}

} // verus!

verus! {

/// The entries with each value viewed through `f`.
pub open spec fn map_entry_values<V, W>(e: Entries<V>, f: spec_fn(V) -> W) -> Entries<W> {
    e.map_values(|x: (Seq<char>, V)| (x.0, f(x.1)))
}

/// Inserting commutes with viewing the values.
pub proof fn lemma_insert_map_values<V, W>(e: Entries<V>, k: Seq<char>, v: V, f: spec_fn(V) -> W)
    ensures
        map_entry_values(map_insert(e, k, v), f) == map_insert(map_entry_values(e, f), k, f(v)),
{
    let ev = map_entry_values(e, f);
    lemma_key_index(e, k);
    lemma_key_index(ev, k);
    let i = key_index(e, k);
    if i >= 0 {
        assert(is_first_key(ev, k, i)) by {
            assert(ev[i].0 == e[i].0);
            assert forall|j: int| 0 <= j < i implies (#[trigger] ev[j]).0 != k by {
                assert(ev[j].0 == e[j].0);
            }
        }
        lemma_first_key_unique(ev, k, i);
        assert(map_entry_values(map_insert(e, k, v), f) =~= map_insert(ev, k, f(v)));
    } else {
        assert(!has_key(ev, k)) by {
            if has_key(ev, k) {
                let j = choose|j: int| 0 <= j < ev.len() && (#[trigger] ev[j]).0 == k;
                assert(e[j].0 == k);
            }
        }
        assert(map_entry_values(map_insert(e, k, v), f) =~= map_insert(ev, k, f(v)));
    }
}

/// The string values of entries as plain values.
pub open spec fn text_entries(e: Entries<String>) -> Entries<Seq<char>> {
    map_entry_values(e, |s: String| s@)
}

impl<V: Clone> Clone for StrMap<V> {
    /// A copy of the map: the same keys in the same order, each value cloned.
    fn clone(&self) -> (res: Self)
        ensures
            res@.len() == self@.len(),
            forall|j: int| 0 <= j < self@.len() ==> (#[trigger] res@[j]).0 == self@[j].0,
    {
        proof {
            use_type_invariant(self);
        }
        let mut entries: Vec<(String, V)> = Vec::new();
        let mut i: usize = 0;
        while i < self.entries.len()
            invariant
                i <= self.entries@.len(),
                entries@.len() == i,
                forall|j: int| 0 <= j < i ==> (#[trigger] entries@[j]).0@ == self.entries@[j].0@,
            decreases self.entries@.len() - i,
        {
            let k = self.entries[i].0.clone();
            let v = self.entries[i].1.clone();
            entries.push((k, v));
            i += 1;
        }
        proof {
            let r = entries@.map_values(|e: (String, V)| (e.0@, e.1));
            assert forall|a: int, b: int| 0 <= a < b < r.len() implies (#[trigger] r[a]).0 != (
            #[trigger] r[b]).0 by {
                assert(self@[a].0 == self.entries@[a].0@);
                assert(self@[b].0 == self.entries@[b].0@);
            }
        }
        StrMap { entries }
    }
}

impl StrMap<String> {
    /// A copy of the map.
    pub fn copied(&self) -> (res: Self)
        ensures
            res@ == self@,
    {
        proof {
            use_type_invariant(self);
        }
        let mut entries: Vec<(String, String)> = Vec::new();
        let mut i: usize = 0;
        while i < self.entries.len()
            invariant
                i <= self.entries@.len(),
                entries@.len() == i,
                forall|j: int| 0 <= j < i ==> #[trigger] entries@[j] == self.entries@[j],
            decreases self.entries@.len() - i,
        {
            let k = self.entries[i].0.clone();
            let v = self.entries[i].1.clone();
            entries.push((k, v));
            i += 1;
        }
        assert(entries@ =~= self.entries@);
        StrMap { entries }
    }
}

/// Distinct keys stay distinct after a removal.
pub proof fn lemma_remove_distinct<V>(e: Entries<V>, k: Seq<char>)
    requires
        keys_distinct(e),
    ensures
        keys_distinct(map_remove(e, k)),
{
    let r = map_remove(e, k);
    let i = key_index(e, k);
    lemma_key_index(e, k);
    if i >= 0 {
        assert forall|a: int, b: int| 0 <= a < b < r.len() implies (#[trigger] r[a]).0 != (
        #[trigger] r[b]).0 by {
            let a2 = if a < i { a } else { a + 1 };
            let b2 = if b < i { b } else { b + 1 };
            assert(r[a] == e[a2]);
            assert(r[b] == e[b2]);
        }
    }
}

/// Law: reading a key after an insert gives the inserted value; reading any
/// other key gives what it gave before.
pub proof fn lemma_get_after_insert<V>(e: Entries<V>, k: Seq<char>, v: V, k2: Seq<char>)
    ensures
        map_get(map_insert(e, k, v), k2) == if k2 == k {
            Some(v)
        } else {
            map_get(e, k2)
        },
{
    let r = map_insert(e, k, v);
    let i = key_index(e, k);
    lemma_key_index(e, k);
    lemma_key_index(e, k2);
    lemma_key_index(r, k2);
    if k2 == k {
        if i >= 0 {
            assert(is_first_key(r, k, i)) by {
                assert forall|j: int| 0 <= j < i implies (#[trigger] r[j]).0 != k by {
                    assert(r[j] == e[j]);
                }
            }
        } else {
            assert(is_first_key(r, k, e.len() as int)) by {
                assert forall|j: int| 0 <= j < e.len() implies (#[trigger] r[j]).0 != k by {
                    assert(r[j] == e[j]);
                }
            }
            lemma_first_key_unique(r, k, e.len() as int);
        }
        lemma_first_key_unique(r, k, if i >= 0 { i } else { e.len() as int });
    } else {
        assert forall|j: int| 0 <= j < e.len() implies (#[trigger] r[j]).0 == e[j].0 && (j != i
            ==> r[j] == e[j]) by {}
        if has_key(e, k2) {
            let j = key_index(e, k2);
            assert(j != i);
            assert(is_first_key(r, k2, j)) by {
                assert forall|x: int| 0 <= x < j implies (#[trigger] r[x]).0 != k2 by {
                    assert(r[x].0 == e[x].0);
                }
            }
            lemma_first_key_unique(r, k2, j);
        } else {
            assert forall|x: int| 0 <= x < r.len() implies (#[trigger] r[x]).0 != k2 by {
                if x < e.len() {
                    assert(r[x].0 == e[x].0);
                }
            }
            lemma_no_key(r, k2);
        }
    }
}

/// Law: an insert adds one entry for a new key and keeps the size for a key
/// already present.
pub proof fn lemma_insert_len<V>(e: Entries<V>, k: Seq<char>, v: V)
    ensures
        map_insert(e, k, v).len() == e.len() + if has_key(e, k) {
            0int
        } else {
            1int
        },
        map_insert(e, k, v)[key_index(map_insert(e, k, v), k)] == (k, v),
        has_key(map_insert(e, k, v), k),
{
    lemma_key_index(e, k);
    let r = map_insert(e, k, v);
    let i = if key_index(e, k) >= 0 { key_index(e, k) } else { e.len() as int };
    assert(r[i] == (k, v));
    lemma_key_index_found(r, k, i);
    lemma_get_after_insert(e, k, v, k);
}

/// Law: after a removal the key is gone and every other key reads as before
/// (in a map that never holds a key twice).
pub proof fn lemma_get_after_remove<V>(e: Entries<V>, k: Seq<char>, k2: Seq<char>)
    requires
        keys_distinct(e),
    ensures
        map_get(map_remove(e, k), k2) == if k2 == k {
            None
        } else {
            map_get(e, k2)
        },
{
    let r = map_remove(e, k);
    let i = key_index(e, k);
    lemma_key_index(e, k);
    lemma_key_index(e, k2);
    lemma_key_index(r, k2);
    if i < 0 {
    } else {
        assert forall|x: int| 0 <= x < r.len() implies #[trigger] r[x] == (if x < i {
            e[x]
        } else {
            e[x + 1]
        }) by {}
        if k2 == k {
            assert forall|x: int| 0 <= x < r.len() implies (#[trigger] r[x]).0 != k2 by {
                if x >= i {
                    assert(r[x] == e[x + 1]);
                    assert(e[i].0 != e[x + 1].0);
                }
            }
            lemma_no_key(r, k2);
        } else if has_key(e, k2) {
            let j = key_index(e, k2);
            assert(j != i);
            let j2 = if j < i { j } else { j - 1 };
            assert(r[j2] == e[j]);
            assert(is_first_key(r, k2, j2)) by {
                assert forall|x: int| 0 <= x < j2 implies (#[trigger] r[x]).0 != k2 by {
                    if x < i {
                        assert(r[x] == e[x]);
                    } else {
                        assert(r[x] == e[x + 1]);
                    }
                }
            }
            lemma_first_key_unique(r, k2, j2);
        } else {
            assert forall|x: int| 0 <= x < r.len() implies (#[trigger] r[x]).0 != k2 by {
                if x < i {
                    assert(r[x] == e[x]);
                } else {
                    assert(r[x] == e[x + 1]);
                }
            }
            lemma_no_key(r, k2);
        }
    }
}

/// The entries after removing `k`: its first entry goes, if there is one.
pub open spec fn map_remove<V>(e: Entries<V>, k: Seq<char>) -> Entries<V> {
    let i = key_index(e, k);
    if i >= 0 {
        e.remove(i)
    } else {
        e
    }
}

impl<V> StrMap<V> {
    /// Removes the entry of `key`, if there is one.
    pub fn remove(&mut self, key: &str)
        ensures
            final(self)@ == map_remove(old(self)@, key@),
            keys_distinct(final(self)@),
    {
        proof {
            use_type_invariant(&*self);
            lemma_remove_distinct(old(self)@, key@);
        }
        match self.find(key) {
            Some(i) => {
                let mut entries: Vec<(String, V)> = Vec::new();
                std::mem::swap(&mut entries, &mut self.entries);
                let ghost before = entries@;
                entries.remove(i);
                proof {
                    let bv = before.map_values(|e: (String, V)| (e.0@, e.1));
                    assert(bv =~= old(self)@);
                    assert(entries@.map_values(|e: (String, V)| (e.0@, e.1)) =~= bv.remove(
                        i as int,
                    ));
                }
                self.entries = entries;
            },
            None => {},
        }
    }
}

} // verus!

//! Maps and sets keyed by strings.
//!
//! Each is a vector of entries whose keys are pairwise distinct (the type
//! invariant). Entries keep the order in which their keys were first inserted.
use vstd::prelude::*;

use crate::text::str_eq;

verus! {

/// The keys of `e` are pairwise distinct.
pub open spec fn distinct_keys<V>(e: Seq<(String, V)>) -> bool {
    forall|i: int, j: int| 0 <= i < e.len() && 0 <= j < e.len() && i != j ==> e[i].0@ != e[j].0@
}

/// `k` is the key of some entry of `e`.
pub open spec fn has_key<V>(e: Seq<(String, V)>, k: Seq<char>) -> bool {
    exists|i: int| 0 <= i < e.len() && e[i].0@ == k
}

/// The index of the entry of `e` whose key is `k`.
pub open spec fn key_index<V>(e: Seq<(String, V)>, k: Seq<char>) -> int {
    choose|i: int| 0 <= i < e.len() && e[i].0@ == k
}

/// The map that a list of entries with distinct keys stands for.
pub open spec fn entries_map<V>(e: Seq<(String, V)>) -> Map<Seq<char>, V> {
    Map::new(|k: Seq<char>| has_key(e, k), |k: Seq<char>| e[key_index(e, k)].1)
}

/// With distinct keys, the entry at `i` is the one the map gives for its key.
pub proof fn lemma_entry_in_map<V>(e: Seq<(String, V)>, i: int)
    requires
        distinct_keys(e),
        0 <= i < e.len(),
    ensures
        entries_map(e).contains_key(e[i].0@),
        entries_map(e)[e[i].0@] == e[i].1,
        key_index(e, e[i].0@) == i,
{
    assert(has_key(e, e[i].0@));
    let j = key_index(e, e[i].0@);
    assert(0 <= j < e.len() && e[j].0@ == e[i].0@);
}

/// A map from strings to values.
#[derive(Debug)]
pub struct StrMap<V> {
    entries: Vec<(String, V)>,
}

impl<V> StrMap<V> {
    #[verifier::type_invariant]
    spec fn inv(self) -> bool {
        distinct_keys(self.entries@)
    }

    /// The entries, in insertion order.
    pub closed spec fn entry_seq(self) -> Seq<(String, V)> {
        self.entries@
    }

    /// The map this value stands for.
    pub open spec fn view(self) -> Map<Seq<char>, V> {
        entries_map(self.entry_seq())
    }

    /// The keys of the entries, in insertion order.
    pub open spec fn key_seq(self) -> Seq<Seq<char>> {
        self.entry_seq().map_values(|e: (String, V)| e.0@)
    }

    /// An empty map.
    pub fn new() -> (m: Self)
        ensures
            m@ == Map::<Seq<char>, V>::empty(),
            m.entry_seq().len() == 0,
    {
        let m = StrMap { entries: Vec::new() };
        assert(m@ =~= Map::<Seq<char>, V>::empty());
        m
    }

    /// The number of entries.
    pub fn len(&self) -> (n: usize)
        ensures
            n == self.entry_seq().len(),
            n == self@.len(),
    {
        proof {
            use_type_invariant(self);
            lemma_entries_len(self.entry_seq());
        }
        self.entries.len()
    }

    /// Whether the map is empty.
    pub fn is_empty(&self) -> (b: bool)
        ensures
            b == (self.entry_seq().len() == 0),
            b == (self@ == Map::<Seq<char>, V>::empty()),
    {
        proof {
            if self.entry_seq().len() > 0 {
                use_type_invariant(self);
                lemma_entry_in_map(self.entry_seq(), 0);
            } else {
                assert(self@ =~= Map::<Seq<char>, V>::empty());
            }
        }
        self.entries.len() == 0
    }

    /// The index of the entry with key `k`.
    fn index_of(&self, k: &str) -> (r: Option<usize>)
        ensures
            match r {
                Some(i) => i < self.entry_seq().len() && self.entry_seq()[i as int].0@ == k@,
                None => !has_key(self.entry_seq(), k@),
            },
    {
        let mut i: usize = 0;
        while i < self.entries.len()
            invariant
                i <= self.entries@.len(),
                forall|j: int| 0 <= j < i ==> self.entries@[j].0@ != k@,
            decreases self.entries.len() - i,
        {
            if str_eq(self.entries[i].0.as_str(), k) {
                return Some(i);
            }
            i += 1;
        }
        None
    }

    /// Whether some entry has key `k`.
    pub fn contains_key(&self, k: &str) -> (b: bool)
        ensures
            b == self@.contains_key(k@),
    {
        self.index_of(k).is_some()
    }

    /// The value stored under `k`.
    pub fn get(&self, k: &str) -> (r: Option<&V>)
        ensures
            r is Some == self@.contains_key(k@),
            r matches Some(v) ==> *v == self@[k@],
    {
        proof {
            use_type_invariant(self);
        }
        match self.index_of(k) {
            Some(i) => {
                proof {
                    lemma_entry_in_map(self.entry_seq(), i as int);
                }
                Some(&self.entries[i].1)
            },
            None => None,
        }
    }

    /// The key of the `i`-th entry.
    pub fn key_at(&self, i: usize) -> (k: &String)
        requires
            i < self.entry_seq().len(),
        ensures
            *k == self.entry_seq()[i as int].0,
            distinct_keys(self.entry_seq()),
    {
        proof {
            use_type_invariant(self);
        }
        &self.entries[i].0
    }

    /// The value of the `i`-th entry.
    pub fn value_at(&self, i: usize) -> (v: &V)
        requires
            i < self.entry_seq().len(),
        ensures
            *v == self.entry_seq()[i as int].1,
            self@.contains_key(self.entry_seq()[i as int].0@),
            self@[self.entry_seq()[i as int].0@] == *v,
    {
        proof {
            use_type_invariant(self);
            lemma_entry_in_map(self.entry_seq(), i as int);
        }
        &self.entries[i].1
    }

    /// Stores `v` under `k`, replacing the value held there before.
    pub fn insert(&mut self, k: String, v: V)
        ensures
            final(self)@ == old(self)@.insert(k@, v),
            has_key(old(self).entry_seq(), k@) ==> final(self).entry_seq().len() == old(
                self,
            ).entry_seq().len(),
            has_key(old(self).entry_seq(), k@) ==> final(self).key_seq() == old(self).key_seq(),
            !has_key(old(self).entry_seq(), k@) ==> final(self).key_seq() == old(
                self,
            ).key_seq().push(k@),
    {
        proof {
            use_type_invariant(&*self);
        }
        let ghost old_e = self.entries@;
        match self.index_of(k.as_str()) {
            Some(i) => {
                let mut e_vec: Vec<(String, V)> = Vec::new();
                std::mem::swap(&mut e_vec, &mut self.entries);
                e_vec.set(i, (k, v));
                let ghost e = e_vec@;
                proof {
                    assert(distinct_keys(e));
                    assert forall|key: Seq<char>| #![auto]
                        entries_map(e).contains_key(key) == entries_map(old_e).insert(
                            k@,
                            v,
                        ).contains_key(key) by {
                        if has_key(old_e, key) {
                            let j = key_index(old_e, key);
                            assert(e[j].0@ == key);
                        }
                        if has_key(e, key) {
                            let j = key_index(e, key);
                            if j != i {
                                assert(old_e[j].0@ == key);
                            }
                        }
                    }
                    assert forall|key: Seq<char>| #[trigger]
                        entries_map(e).contains_key(key) implies entries_map(e)[key] == entries_map(
                        old_e,
                    ).insert(k@, v)[key] by {
                        let j = key_index(e, key);
                        lemma_entry_in_map(e, j);
                        if j != i {
                            lemma_entry_in_map(old_e, j);
                        }
                    }
                    assert(entries_map(e) =~= entries_map(old_e).insert(k@, v));
                    assert(e.map_values(|x: (String, V)| x.0@) =~= old_e.map_values(
                        |x: (String, V)| x.0@,
                    ));
                }
                self.entries = e_vec;
            },
            None => {
                let mut e_vec: Vec<(String, V)> = Vec::new();
                std::mem::swap(&mut e_vec, &mut self.entries);
                e_vec.push((k, v));
                let ghost e = e_vec@;
                proof {
                    assert(distinct_keys(e));
                    assert forall|key: Seq<char>| #![auto]
                        entries_map(e).contains_key(key) == entries_map(old_e).insert(
                            k@,
                            v,
                        ).contains_key(key) by {
                        if has_key(old_e, key) {
                            let j = key_index(old_e, key);
                            assert(e[j].0@ == key);
                        }
                        if has_key(e, key) {
                            let j = key_index(e, key);
                            if j < old_e.len() {
                                assert(old_e[j].0@ == key);
                            }
                        }
                        if key == k@ {
                            assert(e[old_e.len() as int].0@ == key);
                        }
                    }
                    assert forall|key: Seq<char>| #[trigger]
                        entries_map(e).contains_key(key) implies entries_map(e)[key] == entries_map(
                        old_e,
                    ).insert(k@, v)[key] by {
                        let j = key_index(e, key);
                        lemma_entry_in_map(e, j);
                        if j < old_e.len() {
                            assert(e[j] == old_e[j]);
                            lemma_entry_in_map(old_e, j);
                        }
                    }
                    assert(entries_map(e) =~= entries_map(old_e).insert(k@, v));
                    assert(e.map_values(|x: (String, V)| x.0@) =~= old_e.map_values(
                        |x: (String, V)| x.0@,
                    ).push(k@));
                }
                self.entries = e_vec;
            },
        }
    }
}

impl StrMap<StrSet> {
    /// Adds `member` to the set stored under `k`, starting from an empty set
    /// when there is none.
    pub fn add_to_set(&mut self, k: String, member: String)
        ensures
            final(self)@.dom() == old(self)@.dom().insert(k@),
            forall|key: Seq<char>|
                #![trigger final(self)@[key]]
                key != k@ && old(self)@.contains_key(key) ==> final(self)@[key] == old(self)@[key],
            final(self)@[k@]@ == (if old(self)@.contains_key(k@) {
                old(self)@[k@]@
            } else {
                Set::<Seq<char>>::empty()
            }).insert(member@),
    {
        proof {
            use_type_invariant(&*self);
        }
        let ghost old_e = self.entries@;
        match self.index_of(k.as_str()) {
            Some(i) => {
                let mut e_vec: Vec<(String, StrSet)> = Vec::new();
                std::mem::swap(&mut e_vec, &mut self.entries);
                let (key, mut set) = e_vec.remove(i);
                proof {
                    lemma_entry_in_map(old_e, i as int);
                }
                set.insert(member);
                e_vec.insert(i, (key, set));
                let ghost e = e_vec@;
                proof {
                    assert(forall|j: int| 0 <= j < e.len() && j != i ==> e[j] == old_e[j]);
                    assert(distinct_keys(e));
                    assert forall|key: Seq<char>| #![auto]
                        entries_map(e).contains_key(key) == entries_map(old_e).contains_key(key) by {
                        if has_key(old_e, key) {
                            let j = key_index(old_e, key);
                            assert(e[j].0@ == key);
                        }
                        if has_key(e, key) {
                            let j = key_index(e, key);
                            assert(old_e[j].0@ == key);
                        }
                    }
                    assert(entries_map(e).dom() =~= entries_map(old_e).dom().insert(k@));
                    assert forall|key: Seq<char>|
                        #![trigger entries_map(e)[key]]
                        key != k@ && entries_map(old_e).contains_key(key) implies entries_map(e)[key]
                        == entries_map(old_e)[key] by {
                        let j = key_index(old_e, key);
                        lemma_entry_in_map(old_e, j);
                        assert(e[j] == old_e[j]);
                        lemma_entry_in_map(e, j);
                    }
                    lemma_entry_in_map(e, i as int);
                }
                self.entries = e_vec;
            },
            None => {
                let mut set = StrSet::new();
                set.insert(member);
                self.insert(k, set);
            },
        }
    }
}

/// A list of entries with distinct keys has as many keys as entries.
pub proof fn lemma_entries_len<V>(e: Seq<(String, V)>)
    requires
        distinct_keys(e),
    ensures
        entries_map(e).dom().finite(),
        entries_map(e).len() == e.len(),
    decreases e.len(),
{
    if e.len() == 0 {
        assert(entries_map(e).dom() =~= Set::empty());
    } else {
        let d = e.drop_last();
        assert(distinct_keys(d));
        lemma_entries_len(d);
        let k = e.last().0@;
        assert(entries_map(e).dom() =~= entries_map(d).dom().insert(k)) by {
            assert forall|key: Seq<char>| entries_map(e).dom().contains(key) == entries_map(
                d,
            ).dom().insert(k).contains(key) by {
                if has_key(e, key) {
                    let j = key_index(e, key);
                    if j < d.len() {
                        assert(d[j].0@ == key);
                    }
                }
                if has_key(d, key) {
                    let j = key_index(d, key);
                    assert(e[j].0@ == key);
                }
                if key == k {
                    assert(e[e.len() - 1].0@ == key);
                }
            }
        }
        assert(!entries_map(d).dom().contains(k)) by {
            if has_key(d, k) {
                let j = key_index(d, k);
                assert(e[j].0@ == e[e.len() - 1].0@);
            }
        }
    }
}

/// A set of strings, kept in the order in which they were first inserted.
#[derive(Debug)]
pub struct StrSet {
    items: Vec<String>,
}


impl StrMap<String> {
    /// A copy of a map of strings, entry for entry.
    pub fn clone_texts(&self) -> (r: Self)
        ensures
            r.entry_seq() == self.entry_seq(),
            r@ == self@,
    {
        proof {
            use_type_invariant(self);
        }
        let mut entries: Vec<(String, String)> = Vec::new();
        let mut i: usize = 0;
        while i < self.entries.len()
            invariant
                i <= self.entries@.len(),
                entries@ == self.entries@.take(i as int),
            decreases self.entries.len() - i,
        {
            let k = self.entries[i].0.clone();
            let v = self.entries[i].1.clone();
            entries.push((k, v));
            assert(self.entries@.take(i + 1) =~= self.entries@.take(i as int).push(self.entries@[i as int]));
            i += 1;
        }
        assert(self.entries@.take(self.entries@.len() as int) =~= self.entries@);
        StrMap { entries }
    }
}

/// The strings of `s` are pairwise distinct.
pub open spec fn distinct_strings(s: Seq<String>) -> bool {
    forall|i: int, j: int| 0 <= i < s.len() && 0 <= j < s.len() && i != j ==> s[i]@ != s[j]@
}

/// The views of the strings of `s`, as a set.
pub open spec fn string_set(s: Seq<String>) -> Set<Seq<char>> {
    Set::new(|k: Seq<char>| exists|i: int| 0 <= i < s.len() && s[i]@ == k)
}

impl StrSet {
    #[verifier::type_invariant]
    spec fn inv(self) -> bool {
        distinct_strings(self.items@)
    }

    /// The members, in insertion order.
    pub closed spec fn item_seq(self) -> Seq<String> {
        self.items@
    }

    /// The set this value stands for.
    pub open spec fn view(self) -> Set<Seq<char>> {
        string_set(self.item_seq())
    }

    /// An empty set.
    pub fn new() -> (s: Self)
        ensures
            s@ == Set::<Seq<char>>::empty(),
            s.item_seq().len() == 0,
    {
        let s = StrSet { items: Vec::new() };
        assert(s@ =~= Set::<Seq<char>>::empty());
        s
    }

    /// Whether `k` is a member.
    pub fn contains(&self, k: &str) -> (b: bool)
        ensures
            b == self@.contains(k@),
    {
        let mut i: usize = 0;
        while i < self.items.len()
            invariant
                i <= self.items@.len(),
                forall|j: int| 0 <= j < i ==> self.items@[j]@ != k@,
            decreases self.items.len() - i,
        {
            if str_eq(self.items[i].as_str(), k) {
                return true;
            }
            i += 1;
        }
        false
    }

    /// Adds `k`; returns whether it was not a member before.
    pub fn insert(&mut self, k: String) -> (added: bool)
        ensures
            final(self)@ == old(self)@.insert(k@),
            added == !old(self)@.contains(k@),
            added ==> final(self).item_seq() == old(self).item_seq().push(k),
            !added ==> final(self).item_seq() == old(self).item_seq(),
    {
        proof {
            use_type_invariant(&*self);
        }
        if self.contains(k.as_str()) {
            assert(self@ =~= self@.insert(k@));
            false
        } else {
            let ghost old_items = self.items@;
            let mut items: Vec<String> = Vec::new();
            std::mem::swap(&mut items, &mut self.items);
            items.push(k);
            proof {
                assert forall|key: Seq<char>| #![auto]
                    string_set(items@).contains(key) == string_set(old_items).insert(
                        k@,
                    ).contains(key) by {
                    if string_set(old_items).contains(key) {
                        let j = choose|j: int| 0 <= j < old_items.len() && old_items[j]@ == key;
                        assert(items@[j]@ == key);
                    }
                    if string_set(items@).contains(key) {
                        let j = choose|j: int|
                            0 <= j < items@.len() && items@[j]@ == key;
                        if j < old_items.len() {
                            assert(old_items[j]@ == key);
                        }
                    }
                    if key == k@ {
                        assert(items@[old_items.len() as int]@ == key);
                    }
                }
                assert(string_set(items@) =~= string_set(old_items).insert(k@));
            }
            self.items = items;
            true
        }
    }

    /// The number of members.
    pub fn len(&self) -> (n: usize)
        ensures
            n == self.item_seq().len(),
    {
        self.items.len()
    }

    /// The members as a vector, in insertion order.
    pub fn to_vec(&self) -> (v: Vec<String>)
        ensures
            v@ == self.item_seq(),
            distinct_strings(v@),
    {
        proof {
            use_type_invariant(self);
        }
        let mut v: Vec<String> = Vec::new();
        let mut i: usize = 0;
        while i < self.items.len()
            invariant
                i <= self.items@.len(),
                v@ == self.items@.take(i as int),
            decreases self.items.len() - i,
        {
            v.push(self.items[i].clone());
            i += 1;
            assert(v@ =~= self.items@.take(i as int));
        }
        assert(self.items@.take(self.items@.len() as int) =~= self.items@);
        v
    }
}

} // verus!

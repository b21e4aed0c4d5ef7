use crate::text::str_eq;
use vstd::prelude::*;

verus! {

/// The value that the first entry with the key `key` holds.
pub open spec fn lookup<T>(entries: Seq<(Seq<char>, T)>, key: Seq<char>) -> Option<T>
    decreases entries.len(),
{
    if entries.len() == 0 {
        None
    } else if entries[0].0 == key {
        Some(entries[0].1)
    } else {
        lookup(entries.skip(1), key)
    }
}

/// Place of the first entry with the key `key`.
pub open spec fn key_pos<T>(entries: Seq<(Seq<char>, T)>, key: Seq<char>) -> Option<int>
    decreases entries.len(),
{
    if entries.len() == 0 {
        None
    } else if entries[0].0 == key {
        Some(0)
    } else {
        match key_pos(entries.skip(1), key) {
            Some(k) => Some(k + 1),
            None => None,
        }
    }
}

/// The entries after `value` has been stored for `key`: in the place of the
/// first entry with that key, or at the end where there is none.
pub open spec fn put<T>(entries: Seq<(Seq<char>, T)>, key: Seq<char>, value: T) -> Seq<(Seq<char>, T)> {
    match key_pos(entries, key) {
        Some(i) => entries.update(i, (key, value)),
        None => entries.push((key, value)),
    }
}

/// Whether no two entries have the same key.
pub open spec fn distinct_keys<T>(entries: Seq<(Seq<char>, T)>) -> bool {
    forall|i: int, j: int| 0 <= i < j < entries.len() ==> entries[i].0 != entries[j].0
}

/// What [`key_pos`] and [`lookup`] say of the place and the value they give.
pub proof fn lemma_key_pos<T>(entries: Seq<(Seq<char>, T)>, key: Seq<char>)
    ensures
        key_pos(entries, key) matches Some(i) ==> 0 <= i < entries.len() && entries[i].0 == key
            && lookup(entries, key) == Some(entries[i].1) && forall|j: int|
            0 <= j < i ==> entries[j].0 != key,
        key_pos(entries, key) is None ==> lookup(entries, key) is None && forall|j: int|
            0 <= j < entries.len() ==> entries[j].0 != key,
    decreases entries.len(),
{
    if entries.len() > 0 && entries[0].0 != key {
        lemma_key_pos(entries.skip(1), key);
        match key_pos(entries.skip(1), key) {
            Some(k) => {
                assert(entries.skip(1)[k] == entries[k + 1]);
                assert forall|j: int| 0 <= j < k + 1 implies entries[j].0 != key by {
                    if j > 0 {
                        assert(entries.skip(1)[j - 1] == entries[j]);
                    }
                }
            },
            None => {
                assert forall|j: int| 0 <= j < entries.len() implies entries[j].0 != key by {
                    if j > 0 {
                        assert(entries.skip(1)[j - 1] == entries[j]);
                    }
                }
            },
        }
    }
}

/// The first entry with the key is where [`key_pos`] says.
pub proof fn lemma_key_pos_first<T>(entries: Seq<(Seq<char>, T)>, key: Seq<char>, i: int)
    requires
        0 <= i < entries.len(),
        entries[i].0 == key,
        forall|j: int| 0 <= j < i ==> entries[j].0 != key,
    ensures
        key_pos(entries, key) == Some(i),
        lookup(entries, key) == Some(entries[i].1),
{
    lemma_key_pos(entries, key);
}

/// After [`put`], `key` has `value` and every other key has what it had.
pub proof fn lemma_put<T>(entries: Seq<(Seq<char>, T)>, key: Seq<char>, value: T, k: Seq<char>)
    ensures
        lookup(put(entries, key, value), k) == (if k == key {
            Some(value)
        } else {
            lookup(entries, k)
        }),
        distinct_keys(entries) ==> distinct_keys(put(entries, key, value)),
    decreases entries.len(),
{
    lemma_key_pos(entries, key);
    let after = put(entries, key, value);
    if entries.len() == 0 {
        assert(after.skip(1) =~= entries);
    } else if entries[0].0 == key {
        assert(after.skip(1) =~= entries.skip(1));
    } else {
        lemma_put(entries.skip(1), key, value, k);
        lemma_key_pos(entries.skip(1), key);
        assert(after.skip(1) =~= put(entries.skip(1), key, value));
        assert(after[0] == entries[0]);
    }
    if distinct_keys(entries) {
        assert forall|i: int, j: int| 0 <= i < j < after.len() implies after[i].0 != after[j].0 by {
            match key_pos(entries, key) {
                Some(p) => {
                    assert(after[i].0 == entries[i].0);
                    assert(after[j].0 == entries[j].0);
                },
                None => {
                    if j < entries.len() {
                        assert(after[i] == entries[i]);
                        assert(after[j] == entries[j]);
                    } else {
                        assert(after[i] == entries[i]);
                    }
                },
            }
        }
    }
}

/// A map from texts to values that keeps its entries in the order in which
/// their keys first came.
#[derive(Debug, PartialEq)]
pub struct StringMap<V> {
    pub entries: Vec<(String, V)>,
}

impl<V: View> View for StringMap<V> {
    type V = Seq<(Seq<char>, V::V)>;

    open spec fn view(&self) -> Seq<(Seq<char>, V::V)> {
        Seq::new(self.entries@.len(), |i: int| (self.entries@[i].0@, self.entries@[i].1@))
    }
}

impl<V: View> StringMap<V> {
    /// Whether each key is held once.
    pub open spec fn wf(&self) -> bool {
        distinct_keys(self@)
    }

    pub fn new() -> (m: Self)
        ensures
            m@ == Seq::<(Seq<char>, V::V)>::empty(),
    {
        let m = StringMap { entries: Vec::new() };
        assert(m@ =~= Seq::<(Seq<char>, V::V)>::empty());
        m
    }

    /// Number of entries: of keys, where each is held once.
    pub fn len(&self) -> (n: usize)
        ensures
            n == self@.len(),
    {
        self.entries.len()
    }

    pub fn is_empty(&self) -> (r: bool)
        ensures
            r == (self@.len() == 0),
    {
        self.entries.len() == 0
    }

    /// Place of the first entry with the key `key`.
    pub fn position(&self, key: &str) -> (r: Option<usize>)
        ensures
            r matches Some(i) ==> key_pos(self@, key@) == Some(i as int) && i < self.entries@.len(),
            r is None ==> key_pos(self@, key@) is None,
    {
        let mut i: usize = 0;
        while i < self.entries.len()
            invariant
                i <= self.entries.len(),
                forall|j: int| 0 <= j < i ==> self@[j].0 != key@,
            decreases self.entries.len() - i,
        {
            if str_eq(self.entries[i].0.as_str(), key) {
                proof {
                    lemma_key_pos_first(self@, key@, i as int);
                }
                return Some(i);
            }
            i += 1;
        }
        proof {
            lemma_key_pos(self@, key@);
        }
        None
    }

    /// The value held for `key`.
    pub fn get(&self, key: &str) -> (r: Option<&V>)
        ensures
            r matches Some(v) ==> lookup(self@, key@) == Some(v@),
            r is None ==> lookup(self@, key@) is None,
    {
        proof {
            lemma_key_pos(self@, key@);
        }
        match self.position(key) {
            Some(i) => Some(&self.entries[i].1),
            None => None,
        }
    }

    pub fn contains_key(&self, key: &str) -> (r: bool)
        ensures
            r == lookup(self@, key@) is Some,
    {
        proof {
            lemma_key_pos(self@, key@);
        }
        self.position(key).is_some()
    }

    /// Holds `value` for `key` from now on, in place of what was held for it.
    pub fn insert(&mut self, key: String, value: V)
        ensures
            final(self)@ == put(old(self)@, key@, value@),
            lookup(final(self)@, key@) == Some(value@),
            old(self).wf() ==> final(self).wf(),
    {
        proof {
            lemma_put(self@, key@, value@, key@);
        }
        match self.position(key.as_str()) {
            Some(i) => {
                self.entries.remove(i);
                self.entries.insert(i, (key, value));
                assert(self@ =~= old(self)@.update(i as int, (key@, value@)));
            },
            None => {
                self.entries.push((key, value));
                assert(self@ =~= old(self)@.push((key@, value@)));
            },
        }
    }

    pub fn clear(&mut self)
        ensures
            final(self)@ == Seq::<(Seq<char>, V::V)>::empty(),
    {
        self.entries.clear();
        assert(self@ =~= Seq::<(Seq<char>, V::V)>::empty());
    }
}

/// A set of texts, in the order in which they came.
#[derive(Debug, PartialEq)]
pub struct StringSet {
    pub items: Vec<String>,
}

/// Whether `key` is among `items`.
pub open spec fn member(items: Seq<Seq<char>>, key: Seq<char>) -> bool {
    exists|j: int| 0 <= j < items.len() && items[j] == key
}

/// Place of the first item that is `key`.
pub open spec fn item_pos(items: Seq<Seq<char>>, key: Seq<char>) -> Option<int>
    decreases items.len(),
{
    if items.len() == 0 {
        None
    } else if items[0] == key {
        Some(0)
    } else {
        match item_pos(items.skip(1), key) {
            Some(k) => Some(k + 1),
            None => None,
        }
    }
}

/// The items without the first that is `key`.
pub open spec fn without(items: Seq<Seq<char>>, key: Seq<char>) -> Seq<Seq<char>> {
    match item_pos(items, key) {
        Some(i) => items.remove(i),
        None => items,
    }
}

/// Whether no item occurs twice.
pub open spec fn distinct(items: Seq<Seq<char>>) -> bool {
    forall|i: int, j: int| 0 <= i < j < items.len() ==> items[i] != items[j]
}

/// What [`item_pos`] says of the place it gives: the item there is `key`, no
/// item before it is, and there is such a place exactly where `key` is among
/// the items.
pub proof fn lemma_item_pos(items: Seq<Seq<char>>, key: Seq<char>)
    ensures
        item_pos(items, key) matches Some(i) ==> 0 <= i < items.len() && items[i] == key
            && forall|j: int| 0 <= j < i ==> items[j] != key,
        item_pos(items, key) is None ==> forall|j: int| 0 <= j < items.len() ==> items[j] != key,
        item_pos(items, key) is Some == member(items, key),
    decreases items.len(),
{
    if items.len() > 0 && items[0] != key {
        let rest = items.skip(1);
        lemma_item_pos(rest, key);
        match item_pos(rest, key) {
            Some(k) => {
                assert(rest[k] == items[k + 1]);
                assert forall|j: int| 0 <= j < k + 1 implies items[j] != key by {
                    if j > 0 {
                        assert(rest[j - 1] == items[j]);
                    }
                }
            },
            None => {
                assert forall|j: int| 0 <= j < items.len() implies items[j] != key by {
                    if j > 0 {
                        assert(rest[j - 1] == items[j]);
                    }
                }
            },
        }
    }
}

/// Taking `key` out of items of which none occurs twice leaves every other
/// item and not `key`, and still none occurs twice.
pub proof fn lemma_without(items: Seq<Seq<char>>, key: Seq<char>, k: Seq<char>)
    requires
        distinct(items),
    ensures
        distinct(without(items, key)),
        member(without(items, key), k) == (k != key && member(items, k)),
{
    lemma_item_pos(items, key);
    let after = without(items, key);
    match item_pos(items, key) {
        Some(i) => {
            assert forall|a: int, b: int| 0 <= a < b < after.len() implies after[a] != after[b] by {
                let a0 = if a < i { a } else { a + 1 };
                let b0 = if b < i { b } else { b + 1 };
                assert(after[a] == items[a0]);
                assert(after[b] == items[b0]);
            }
            if member(after, k) {
                let j = choose|j: int| 0 <= j < after.len() && after[j] == k;
                let j0 = if j < i { j } else { j + 1 };
                assert(items[j0] == k);
            }
            if k != key && member(items, k) {
                let j = choose|j: int| 0 <= j < items.len() && items[j] == k;
                if j < i {
                    assert(after[j] == k);
                } else {
                    assert(after[j - 1] == k);
                }
            }
        },
        None => {},
    }
}

impl View for StringSet {
    type V = Seq<Seq<char>>;

    open spec fn view(&self) -> Seq<Seq<char>> {
        Seq::new(self.items@.len(), |i: int| self.items@[i]@)
    }
}

impl StringSet {
    /// Whether each text is held once.
    pub open spec fn wf(&self) -> bool {
        distinct(self@)
    }

    pub fn new() -> (s: Self)
        ensures
            s@ == Seq::<Seq<char>>::empty(),
            s.wf(),
    {
        let s = StringSet { items: Vec::new() };
        assert(s@ =~= Seq::<Seq<char>>::empty());
        s
    }

    pub fn len(&self) -> (n: usize)
        ensures
            n == self@.len(),
    {
        self.items.len()
    }

    pub fn is_empty(&self) -> (r: bool)
        ensures
            r == (self@.len() == 0),
    {
        self.items.len() == 0
    }

    pub fn contains(&self, key: &str) -> (r: bool)
        ensures
            r == member(self@, key@),
    {
        let mut i: usize = 0;
        while i < self.items.len()
            invariant
                i <= self.items.len(),
                forall|j: int| 0 <= j < i ==> self@[j] != key@,
            decreases self.items.len() - i,
        {
            if str_eq(self.items[i].as_str(), key) {
                assert(self@[i as int] == key@);
                return true;
            }
            i += 1;
        }
        false
    }

    /// Puts `key` into the set. Returns whether it was new.
    pub fn insert(&mut self, key: String) -> (r: bool)
        ensures
            r == !member(old(self)@, key@),
            final(self)@ == (if r {
                old(self)@.push(key@)
            } else {
                old(self)@
            }),
            old(self).wf() ==> final(self).wf(),
    {
        if self.contains(key.as_str()) {
            return false;
        }
        self.items.push(key);
        assert(self@ =~= old(self)@.push(key@));
        proof {
            if old(self).wf() {
                assert forall|i: int, j: int| 0 <= i < j < self@.len() implies self@[i] != self@[j] by {
                    assert(self@[i] == old(self)@[i]);
                    if j < old(self)@.len() {
                        assert(self@[j] == old(self)@[j]);
                    }
                }
            }
        }
        true
    }

    /// Takes `key` out of the set. Returns whether it was there.
    pub fn remove(&mut self, key: &str) -> (r: bool)
        ensures
            r == member(old(self)@, key@),
            final(self)@ == without(old(self)@, key@),
            old(self).wf() ==> final(self).wf() && !member(final(self)@, key@),
    {
        let mut i: usize = 0;
        while i < self.items.len()
            invariant
                i <= self.items.len(),
                self.items == old(self).items,
                forall|j: int| 0 <= j < i ==> self@[j] != key@,
            decreases self.items.len() - i,
        {
            if str_eq(self.items[i].as_str(), key) {
                proof {
                    assert(old(self)@[i as int] == key@);
                    lemma_item_pos(old(self)@, key@);
                    if old(self).wf() {
                        lemma_without(old(self)@, key@, key@);
                    }
                }
                self.items.remove(i);
                assert(self@ =~= old(self)@.remove(i as int));
                return true;
            }
            i += 1;
        }
        proof {
            lemma_item_pos(self@, key@);
        }
        false
    }
}

} // verus!

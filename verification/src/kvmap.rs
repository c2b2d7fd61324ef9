//! Verified association maps used throughout the engine: one keyed by
//! strings, one keyed by 128-bit identifiers. Both are backed by a vector
//! of entries with pairwise-distinct keys and are viewed as a `Map`.

use vstd::pervasive::VecAdditionalExecFns;
use vstd::prelude::*;

verus! {

/// The map denoted by a sequence of entries (later entries win).
pub open spec fn str_map_of<T>(entries: Seq<(String, T)>) -> Map<Seq<char>, T>
    decreases entries.len(),
{
    if entries.len() == 0 {
        Map::empty()
    } else {
        str_map_of(entries.drop_last()).insert(entries.last().0@, entries.last().1)
    }
}

/// The map denoted by a sequence of id-keyed entries (later entries win).
pub open spec fn id_map_of<T>(entries: Seq<(u128, T)>) -> Map<u128, T>
    decreases entries.len(),
{
    if entries.len() == 0 {
        Map::empty()
    } else {
        id_map_of(entries.drop_last()).insert(entries.last().0, entries.last().1)
    }
}

/// Compares two string slices by their character sequences.
pub fn str_eq(a: &str, b: &str) -> (r: bool)
    ensures
        r == (a@ == b@),
{
    let sa: String = a.to_owned();
    let sb: String = b.to_owned();
    sa == sb
}

/// A map from strings to values, kept as a vector of entries with
/// pairwise-distinct keys.
#[derive(Debug)]
pub struct StrMap<T> {
    pub entries: Vec<(String, T)>,
}

impl<T> View for StrMap<T> {
    type V = Map<Seq<char>, T>;

    open spec fn view(&self) -> Map<Seq<char>, T> {
        str_map_of(self.entries@)
    }
}

pub open spec fn str_keys_distinct<T>(entries: Seq<(String, T)>) -> bool {
    forall|i: int, j: int|
        0 <= i < j < entries.len() ==> #[trigger] entries[i].0@ != #[trigger] entries[j].0@
}

proof fn lemma_str_map_of_contains<T>(entries: Seq<(String, T)>, k: Seq<char>)
    ensures
        str_map_of(entries).contains_key(k) <==> exists|i: int|
            0 <= i < entries.len() && #[trigger] entries[i].0@ == k,
    decreases entries.len(),
{
    if entries.len() > 0 {
        lemma_str_map_of_contains(entries.drop_last(), k);
        if entries.last().0@ != k {
            if str_map_of(entries).contains_key(k) {
                let i = choose|i: int|
                    0 <= i < entries.drop_last().len() && #[trigger] entries.drop_last()[i].0@ == k;
                assert(entries[i].0@ == k);
            }
            if exists|i: int| 0 <= i < entries.len() && #[trigger] entries[i].0@ == k {
                let i = choose|i: int| 0 <= i < entries.len() && #[trigger] entries[i].0@ == k;
                assert(entries.drop_last()[i].0@ == k);
            }
        } else {
            assert(entries[entries.len() - 1].0@ == k);
        }
    }
}

proof fn lemma_str_map_of_index<T>(entries: Seq<(String, T)>, i: int)
    requires
        str_keys_distinct(entries),
        0 <= i < entries.len(),
    ensures
        str_map_of(entries).contains_key(entries[i].0@),
        str_map_of(entries)[entries[i].0@] == entries[i].1,
    decreases entries.len(),
{
    if i == entries.len() - 1 {
    } else {
        assert(str_keys_distinct(entries.drop_last())) by {
            assert(forall|a: int, b: int|
                0 <= a < b < entries.drop_last().len() ==> #[trigger] entries.drop_last()[a].0@
                    != #[trigger] entries.drop_last()[b].0@) by {
                assert(forall|a: int, b: int|
                    0 <= a < b < entries.drop_last().len() ==> entries.drop_last()[a].0@
                        == entries[a].0@ && entries.drop_last()[b].0@ == entries[b].0@);
            }
        }
        lemma_str_map_of_index(entries.drop_last(), i);
        assert(entries.drop_last()[i] == entries[i]);
        assert(entries[i].0@ != entries.last().0@);
    }
}

proof fn lemma_str_map_of_update<T>(entries: Seq<(String, T)>, i: int, k: String, v: T)
    requires
        str_keys_distinct(entries),
        0 <= i < entries.len(),
        entries[i].0@ == k@,
    ensures
        str_map_of(entries.update(i, (k, v))) =~= str_map_of(entries).insert(k@, v),
    decreases entries.len(),
{
    let updated = entries.update(i, (k, v));
    if i == entries.len() - 1 {
        assert(updated.drop_last() =~= entries.drop_last());
        assert(updated.last() == (k, v));
    } else {
        assert(str_keys_distinct(entries.drop_last()));
        lemma_str_map_of_update(entries.drop_last(), i, k, v);
        assert(updated.drop_last() =~= entries.drop_last().update(i, (k, v)));
        assert(updated.last() == entries.last());
        assert(entries.last().0@ != k@);
    }
}

proof fn lemma_str_map_of_remove<T>(entries: Seq<(String, T)>, i: int)
    requires
        str_keys_distinct(entries),
        0 <= i < entries.len(),
    ensures
        str_map_of(entries.remove(i)) =~= str_map_of(entries).remove(entries[i].0@),
        str_keys_distinct(entries.remove(i)),
    decreases entries.len(),
{
    let removed = entries.remove(i);
    assert(str_keys_distinct(removed)) by {
        assert(forall|a: int, b: int|
            0 <= a < b < removed.len() ==> #[trigger] removed[a].0@ != #[trigger] removed[b].0@)
            by {
            assert(forall|a: int|
                0 <= a < removed.len() ==> #[trigger] removed[a] == if a < i {
                    entries[a]
                } else {
                    entries[a + 1]
                });
        }
    }
    if i == entries.len() - 1 {
        assert(removed =~= entries.drop_last());
        lemma_str_map_of_not_contains_drop(entries, i);
    } else {
        assert(str_keys_distinct(entries.drop_last()));
        lemma_str_map_of_remove(entries.drop_last(), i);
        assert(removed.drop_last() =~= entries.drop_last().remove(i));
        assert(removed.last() == entries.last());
        assert(entries.last().0@ != entries[i].0@);
    }
}

/// After dropping the last occurrence of a key that appears nowhere else,
/// the remaining entries do not contain it.
proof fn lemma_str_map_of_not_contains_drop<T>(entries: Seq<(String, T)>, i: int)
    requires
        str_keys_distinct(entries),
        i == entries.len() - 1,
        0 <= i,
    ensures
        str_map_of(entries.drop_last()) =~= str_map_of(entries).remove(entries[i].0@),
{
    lemma_str_map_of_contains(entries.drop_last(), entries[i].0@);
    assert(!str_map_of(entries.drop_last()).contains_key(entries[i].0@));
    assert forall|k: Seq<char>|
        str_map_of(entries.drop_last()).contains_key(k) implies str_map_of(entries).remove(
        entries[i].0@,
    ).contains_key(k) && str_map_of(entries).remove(entries[i].0@)[k] == str_map_of(
        entries.drop_last(),
    )[k] by {}
}

proof fn lemma_str_map_of_dom_len<T>(entries: Seq<(String, T)>)
    requires
        str_keys_distinct(entries),
    ensures
        str_map_of(entries).dom().finite(),
        str_map_of(entries).dom().len() == entries.len(),
    decreases entries.len(),
{
    if entries.len() > 0 {
        assert(str_keys_distinct(entries.drop_last()));
        lemma_str_map_of_dom_len(entries.drop_last());
        lemma_str_map_of_contains(entries.drop_last(), entries.last().0@);
        assert(!str_map_of(entries.drop_last()).contains_key(entries.last().0@));
        assert(str_map_of(entries).dom() =~= str_map_of(entries.drop_last()).dom().insert(
            entries.last().0@,
        ));
    }
}

impl<T> StrMap<T> {
    pub open spec fn wf(&self) -> bool {
        str_keys_distinct(self.entries@)
    }

    /// Every entry of a well-formed map is in its view.
    pub proof fn lemma_entries_in_view(&self)
        requires
            self.wf(),
        ensures
            forall|i: int|
                0 <= i < self.entries@.len() ==> self@.contains_key(#[trigger] self.entries@[i].0@)
                    && self@[self.entries@[i].0@] == self.entries@[i].1,
            forall|k: Seq<char>|
                self@.contains_key(k) ==> exists|i: int|
                    0 <= i < self.entries@.len() && #[trigger] self.entries@[i].0@ == k,
            self@.dom().finite(),
            self@.dom().len() == self.entries@.len(),
    {
        assert forall|i: int| 0 <= i < self.entries@.len() implies self@.contains_key(
            #[trigger] self.entries@[i].0@,
        ) && self@[self.entries@[i].0@] == self.entries@[i].1 by {
            lemma_str_map_of_index(self.entries@, i);
        }
        assert forall|k: Seq<char>| self@.contains_key(k) implies exists|i: int|
            0 <= i < self.entries@.len() && #[trigger] self.entries@[i].0@ == k by {
            lemma_str_map_of_contains(self.entries@, k);
        }
        lemma_str_map_of_dom_len(self.entries@);
    }

    pub fn new() -> (r: Self)
        ensures
            r@ == Map::<Seq<char>, T>::empty(),
            r.wf(),
            r.entries@.len() == 0,
    {
        StrMap { entries: Vec::new() }
    }

    /// Index of the entry holding the key, if any.
    fn find(&self, key: &str) -> (r: Option<usize>)
        ensures
            r matches Some(i) ==> i < self.entries@.len() && self.entries@[i as int].0@ == key@,
            r is None ==> forall|i: int|
                0 <= i < self.entries@.len() ==> #[trigger] self.entries@[i].0@ != key@,
    {
        let mut i: usize = 0;
        while i < self.entries.len()
            invariant
                i <= self.entries@.len(),
                forall|j: int| 0 <= j < i ==> #[trigger] self.entries@[j].0@ != key@,
            decreases self.entries@.len() - i,
        {
            if str_eq(self.entries[i].0.as_str(), key) {
                return Some(i);
            }
            i = i + 1;
        }
        None
    }

    pub fn contains_key(&self, key: &str) -> (r: bool)
        ensures
            r == self@.contains_key(key@),
    {
        proof {
            lemma_str_map_of_contains(self.entries@, key@);
        }
        self.find(key).is_some()
    }

    pub fn get(&self, key: &str) -> (r: Option<&T>)
        requires
            self.wf(),
        ensures
            r matches Some(v) ==> self@.contains_key(key@) && *v == self@[key@],
            r is None ==> !self@.contains_key(key@),
    {
        proof {
            lemma_str_map_of_contains(self.entries@, key@);
        }
        match self.find(key) {
            Some(i) => {
                proof {
                    lemma_str_map_of_index(self.entries@, i as int);
                }
                Some(&self.entries[i].1)
            },
            None => None,
        }
    }

    pub fn insert(&mut self, key: String, value: T)
        requires
            old(self).wf(),
        ensures
            final(self).wf(),
            final(self)@ == old(self)@.insert(key@, value),
            final(self).entries@.len() == if old(self)@.contains_key(key@) {
                old(self).entries@.len()
            } else {
                old(self).entries@.len() + 1
            },
    {
        proof {
            lemma_str_map_of_contains(self.entries@, key@);
        }
        match self.find(key.as_str()) {
            Some(i) => {
                proof {
                    lemma_str_map_of_update(self.entries@, i as int, key, value);
                    assert(forall|a: int, b: int|
                        0 <= a < b < self.entries@.len() ==> #[trigger] self.entries@.update(
                            i as int,
                            (key, value),
                        )[a].0@ != #[trigger] self.entries@.update(i as int, (key, value))[b].0@);
                }
                self.entries.set(i, (key, value));
            },
            None => {
                proof {
                    let pushed = self.entries@.push((key, value));
                    assert(pushed.drop_last() =~= self.entries@);
                    assert(forall|a: int, b: int|
                        0 <= a < b < pushed.len() ==> #[trigger] pushed[a].0@
                            != #[trigger] pushed[b].0@);
                }
                self.entries.push((key, value));
            },
        }
    }

    pub fn remove(&mut self, key: &str)
        requires
            old(self).wf(),
        ensures
            final(self).wf(),
            final(self)@ == old(self)@.remove(key@),
    {
        proof {
            lemma_str_map_of_contains(self.entries@, key@);
        }
        match self.find(key) {
            Some(i) => {
                proof {
                    lemma_str_map_of_remove(self.entries@, i as int);
                }
                let _ = self.entries.remove(i);
            },
            None => {
                proof {
                    assert(self@ =~= self@.remove(key@));
                }
            },
        }
    }

    /// Removes and returns the value bound to the key, if any.
    pub fn take(&mut self, key: &str) -> (r: Option<T>)
        requires
            old(self).wf(),
        ensures
            final(self).wf(),
            final(self)@ == old(self)@.remove(key@),
            r matches Some(v) ==> old(self)@.contains_key(key@) && v == old(self)@[key@],
            r is None ==> !old(self)@.contains_key(key@),
    {
        proof {
            lemma_str_map_of_contains(self.entries@, key@);
        }
        match self.find(key) {
            Some(i) => {
                proof {
                    lemma_str_map_of_index(self.entries@, i as int);
                    lemma_str_map_of_remove(self.entries@, i as int);
                }
                Some(self.entries.remove(i).1)
            },
            None => {
                proof {
                    assert(self@ =~= self@.remove(key@));
                }
                None
            },
        }
    }

    pub fn len(&self) -> (r: usize)
        requires
            self.wf(),
        ensures
            r == self.entries@.len(),
            self@.dom().finite(),
            r == self@.dom().len(),
    {
        proof {
            lemma_str_map_of_dom_len(self.entries@);
        }
        self.entries.len()
    }

    pub fn num_entries(&self) -> (r: usize)
        ensures
            r == self.entries@.len(),
    {
        self.entries.len()
    }

    pub fn entry_at(&self, i: usize) -> (r: (&String, &T))
        requires
            i < self.entries@.len(),
        ensures
            *r.0 == self.entries@[i as int].0,
            *r.1 == self.entries@[i as int].1,
    {
        (&self.entries[i].0, &self.entries[i].1)
    }
}

/// A map from 128-bit identifiers to values, kept as a vector of entries
/// with pairwise-distinct keys.
#[derive(Debug)]
pub struct IdMap<T> {
    pub entries: Vec<(u128, T)>,
}

impl<T> View for IdMap<T> {
    type V = Map<u128, T>;

    open spec fn view(&self) -> Map<u128, T> {
        id_map_of(self.entries@)
    }
}

pub open spec fn id_keys_distinct<T>(entries: Seq<(u128, T)>) -> bool {
    forall|i: int, j: int|
        0 <= i < j < entries.len() ==> #[trigger] entries[i].0 != #[trigger] entries[j].0
}

proof fn lemma_id_map_of_contains<T>(entries: Seq<(u128, T)>, k: u128)
    ensures
        id_map_of(entries).contains_key(k) <==> exists|i: int|
            0 <= i < entries.len() && #[trigger] entries[i].0 == k,
    decreases entries.len(),
{
    if entries.len() > 0 {
        lemma_id_map_of_contains(entries.drop_last(), k);
        if entries.last().0 != k {
            if id_map_of(entries).contains_key(k) {
                let i = choose|i: int|
                    0 <= i < entries.drop_last().len() && #[trigger] entries.drop_last()[i].0 == k;
                assert(entries[i].0 == k);
            }
            if exists|i: int| 0 <= i < entries.len() && #[trigger] entries[i].0 == k {
                let i = choose|i: int| 0 <= i < entries.len() && #[trigger] entries[i].0 == k;
                assert(entries.drop_last()[i].0 == k);
            }
        } else {
            assert(entries[entries.len() - 1].0 == k);
        }
    }
}

proof fn lemma_id_map_of_index<T>(entries: Seq<(u128, T)>, i: int)
    requires
        id_keys_distinct(entries),
        0 <= i < entries.len(),
    ensures
        id_map_of(entries).contains_key(entries[i].0),
        id_map_of(entries)[entries[i].0] == entries[i].1,
    decreases entries.len(),
{
    if i == entries.len() - 1 {
    } else {
        assert(id_keys_distinct(entries.drop_last())) by {
            assert(forall|a: int, b: int|
                0 <= a < b < entries.drop_last().len() ==> entries.drop_last()[a].0
                    == entries[a].0 && entries.drop_last()[b].0 == entries[b].0);
        }
        lemma_id_map_of_index(entries.drop_last(), i);
        assert(entries.drop_last()[i] == entries[i]);
        assert(entries[i].0 != entries.last().0);
    }
}

proof fn lemma_id_map_of_update<T>(entries: Seq<(u128, T)>, i: int, k: u128, v: T)
    requires
        id_keys_distinct(entries),
        0 <= i < entries.len(),
        entries[i].0 == k,
    ensures
        id_map_of(entries.update(i, (k, v))) =~= id_map_of(entries).insert(k, v),
    decreases entries.len(),
{
    let updated = entries.update(i, (k, v));
    if i == entries.len() - 1 {
        assert(updated.drop_last() =~= entries.drop_last());
        assert(updated.last() == (k, v));
    } else {
        assert(id_keys_distinct(entries.drop_last()));
        lemma_id_map_of_update(entries.drop_last(), i, k, v);
        assert(updated.drop_last() =~= entries.drop_last().update(i, (k, v)));
        assert(updated.last() == entries.last());
        assert(entries.last().0 != k);
    }
}

proof fn lemma_id_map_of_remove<T>(entries: Seq<(u128, T)>, i: int)
    requires
        id_keys_distinct(entries),
        0 <= i < entries.len(),
    ensures
        id_map_of(entries.remove(i)) =~= id_map_of(entries).remove(entries[i].0),
        id_keys_distinct(entries.remove(i)),
    decreases entries.len(),
{
    let removed = entries.remove(i);
    assert(id_keys_distinct(removed)) by {
        assert(forall|a: int, b: int|
            0 <= a < b < removed.len() ==> #[trigger] removed[a].0 != #[trigger] removed[b].0)
            by {
            assert(forall|a: int|
                0 <= a < removed.len() ==> #[trigger] removed[a] == if a < i {
                    entries[a]
                } else {
                    entries[a + 1]
                });
        }
    }
    if i == entries.len() - 1 {
        assert(removed =~= entries.drop_last());
        lemma_id_map_of_not_contains_drop(entries, i);
    } else {
        assert(id_keys_distinct(entries.drop_last()));
        lemma_id_map_of_remove(entries.drop_last(), i);
        assert(removed.drop_last() =~= entries.drop_last().remove(i));
        assert(removed.last() == entries.last());
        assert(entries.last().0 != entries[i].0);
    }
}

proof fn lemma_id_map_of_not_contains_drop<T>(entries: Seq<(u128, T)>, i: int)
    requires
        id_keys_distinct(entries),
        i == entries.len() - 1,
        0 <= i,
    ensures
        id_map_of(entries.drop_last()) =~= id_map_of(entries).remove(entries[i].0),
{
    lemma_id_map_of_contains(entries.drop_last(), entries[i].0);
    assert(!id_map_of(entries.drop_last()).contains_key(entries[i].0));
}

proof fn lemma_id_map_of_dom_len<T>(entries: Seq<(u128, T)>)
    requires
        id_keys_distinct(entries),
    ensures
        id_map_of(entries).dom().finite(),
        id_map_of(entries).dom().len() == entries.len(),
    decreases entries.len(),
{
    if entries.len() > 0 {
        assert(id_keys_distinct(entries.drop_last()));
        lemma_id_map_of_dom_len(entries.drop_last());
        lemma_id_map_of_contains(entries.drop_last(), entries.last().0);
        assert(!id_map_of(entries.drop_last()).contains_key(entries.last().0));
        assert(id_map_of(entries).dom() =~= id_map_of(entries.drop_last()).dom().insert(
            entries.last().0,
        ));
    }
}

/// Every entry of a distinct-key entry list is in the map it denotes.
pub proof fn lemma_id_entries_view<T>(entries: Seq<(u128, T)>)
    requires
        id_keys_distinct(entries),
    ensures
        forall|i: int|
            0 <= i < entries.len() ==> id_map_of(entries).contains_key(#[trigger] entries[i].0)
                && id_map_of(entries)[entries[i].0] == entries[i].1,
        forall|k: u128|
            id_map_of(entries).contains_key(k) ==> exists|i: int|
                0 <= i < entries.len() && #[trigger] entries[i].0 == k,
        id_map_of(entries).dom().finite(),
        id_map_of(entries).dom().len() == entries.len(),
{
    assert forall|i: int| 0 <= i < entries.len() implies id_map_of(entries).contains_key(
        #[trigger] entries[i].0,
    ) && id_map_of(entries)[entries[i].0] == entries[i].1 by {
        lemma_id_map_of_index(entries, i);
    }
    assert forall|k: u128| id_map_of(entries).contains_key(k) implies exists|i: int|
        0 <= i < entries.len() && #[trigger] entries[i].0 == k by {
        lemma_id_map_of_contains(entries, k);
    }
    lemma_id_map_of_dom_len(entries);
}

impl<T> IdMap<T> {
    pub open spec fn wf(&self) -> bool {
        id_keys_distinct(self.entries@)
    }

    /// Every entry of a well-formed map is in its view.
    pub proof fn lemma_entries_in_view(&self)
        requires
            self.wf(),
        ensures
            forall|i: int|
                0 <= i < self.entries@.len() ==> self@.contains_key(#[trigger] self.entries@[i].0)
                    && self@[self.entries@[i].0] == self.entries@[i].1,
            forall|k: u128|
                self@.contains_key(k) ==> exists|i: int|
                    0 <= i < self.entries@.len() && #[trigger] self.entries@[i].0 == k,
            self@.dom().finite(),
            self@.dom().len() == self.entries@.len(),
    {
        lemma_id_entries_view(self.entries@);
    }

    pub fn new() -> (r: Self)
        ensures
            r@ == Map::<u128, T>::empty(),
            r.wf(),
            r.entries@.len() == 0,
    {
        IdMap { entries: Vec::new() }
    }

    fn find(&self, key: u128) -> (r: Option<usize>)
        ensures
            r matches Some(i) ==> i < self.entries@.len() && self.entries@[i as int].0 == key,
            r is None ==> forall|i: int|
                0 <= i < self.entries@.len() ==> #[trigger] self.entries@[i].0 != key,
    {
        let mut i: usize = 0;
        while i < self.entries.len()
            invariant
                i <= self.entries@.len(),
                forall|j: int| 0 <= j < i ==> #[trigger] self.entries@[j].0 != key,
            decreases self.entries@.len() - i,
        {
            if self.entries[i].0 == key {
                return Some(i);
            }
            i = i + 1;
        }
        None
    }

    pub fn contains_key(&self, key: u128) -> (r: bool)
        ensures
            r == self@.contains_key(key),
    {
        proof {
            lemma_id_map_of_contains(self.entries@, key);
        }
        self.find(key).is_some()
    }

    pub fn get(&self, key: u128) -> (r: Option<&T>)
        requires
            self.wf(),
        ensures
            r matches Some(v) ==> self@.contains_key(key) && *v == self@[key],
            r is None ==> !self@.contains_key(key),
    {
        proof {
            lemma_id_map_of_contains(self.entries@, key);
        }
        match self.find(key) {
            Some(i) => {
                proof {
                    lemma_id_map_of_index(self.entries@, i as int);
                }
                Some(&self.entries[i].1)
            },
            None => None,
        }
    }

    pub fn insert(&mut self, key: u128, value: T)
        requires
            old(self).wf(),
        ensures
            final(self).wf(),
            final(self)@ == old(self)@.insert(key, value),
            final(self).entries@.len() == if old(self)@.contains_key(key) {
                old(self).entries@.len()
            } else {
                old(self).entries@.len() + 1
            },
    {
        proof {
            lemma_id_map_of_contains(self.entries@, key);
        }
        match self.find(key) {
            Some(i) => {
                proof {
                    lemma_id_map_of_update(self.entries@, i as int, key, value);
                    assert(forall|a: int, b: int|
                        0 <= a < b < self.entries@.len() ==> #[trigger] self.entries@.update(
                            i as int,
                            (key, value),
                        )[a].0 != #[trigger] self.entries@.update(i as int, (key, value))[b].0);
                }
                self.entries.set(i, (key, value));
            },
            None => {
                proof {
                    let pushed = self.entries@.push((key, value));
                    assert(pushed.drop_last() =~= self.entries@);
                    assert(forall|a: int, b: int|
                        0 <= a < b < pushed.len() ==> #[trigger] pushed[a].0
                            != #[trigger] pushed[b].0);
                }
                self.entries.push((key, value));
            },
        }
    }

    pub fn remove(&mut self, key: u128)
        requires
            old(self).wf(),
        ensures
            final(self).wf(),
            final(self)@ == old(self)@.remove(key),
    {
        proof {
            lemma_id_map_of_contains(self.entries@, key);
        }
        match self.find(key) {
            Some(i) => {
                proof {
                    lemma_id_map_of_remove(self.entries@, i as int);
                }
                let _ = self.entries.remove(i);
            },
            None => {
                proof {
                    assert(self@ =~= self@.remove(key));
                }
            },
        }
    }

    /// Removes and returns the value bound to the key, if any.
    pub fn take(&mut self, key: u128) -> (r: Option<T>)
        requires
            old(self).wf(),
        ensures
            final(self).wf(),
            final(self)@ == old(self)@.remove(key),
            r matches Some(v) ==> old(self)@.contains_key(key) && v == old(self)@[key],
            r is None ==> !old(self)@.contains_key(key),
    {
        proof {
            lemma_id_map_of_contains(self.entries@, key);
        }
        match self.find(key) {
            Some(i) => {
                proof {
                    lemma_id_map_of_index(self.entries@, i as int);
                    lemma_id_map_of_remove(self.entries@, i as int);
                }
                Some(self.entries.remove(i).1)
            },
            None => {
                proof {
                    assert(self@ =~= self@.remove(key));
                }
                None
            },
        }
    }

    pub fn len(&self) -> (r: usize)
        requires
            self.wf(),
        ensures
            r == self.entries@.len(),
            self@.dom().finite(),
            r == self@.dom().len(),
    {
        proof {
            lemma_id_map_of_dom_len(self.entries@);
        }
        self.entries.len()
    }

    pub fn num_entries(&self) -> (r: usize)
        ensures
            r == self.entries@.len(),
    {
        self.entries.len()
    }

    pub fn entry_at(&self, i: usize) -> (r: (u128, &T))
        requires
            i < self.entries@.len(),
        ensures
            r.0 == self.entries@[i as int].0,
            *r.1 == self.entries@[i as int].1,
    {
        (self.entries[i].0, &self.entries[i].1)
    }
}

} // verus!

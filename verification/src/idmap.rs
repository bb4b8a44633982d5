//! Association maps keyed by 128-bit identifiers.
//!
//! Entities are stored as a vector of entries with pairwise distinct
//! identifiers; the mathematical content of such a vector is the `Map`
//! returned by [`map_of`].

use vstd::map::*;
use vstd::prelude::*;

verus! {

/// One key/value pair of an identifier-keyed association map.
pub struct Entry<V> {
    pub id: u128,
    pub val: V,
}

impl<V: View> View for Entry<V> {
    type V = (u128, V::V);

    open spec fn view(&self) -> (u128, V::V) {
        (self.id, self.val@)
    }
}

/// No identifier occurs twice in `s`.
pub open spec fn keys_distinct<T>(s: Seq<(u128, T)>) -> bool {
    forall|i: int, j: int| 0 <= i < j < s.len() ==> s[i].0 != s[j].0
}

/// Some entry of `s` carries the identifier `id`.
pub open spec fn has_key<T>(s: Seq<(u128, T)>, id: u128) -> bool {
    exists|i: int| 0 <= i < s.len() && s[i].0 == id
}

/// The mapping an entry sequence represents; a later entry wins over an
/// earlier one with the same identifier.
pub open spec fn map_of<T>(s: Seq<(u128, T)>) -> Map<u128, T>
    decreases s.len(),
{
    if s.len() == 0 {
        Map::empty()
    } else {
        map_of(s.drop_last()).insert(s.last().0, s.last().1)
    }
}

pub proof fn lemma_map_of_has_key<T>(s: Seq<(u128, T)>, id: u128)
    ensures
        map_of(s).contains_key(id) == has_key(s, id),
    decreases s.len(),
{
    if s.len() == 0 {
    } else {
        lemma_map_of_has_key(s.drop_last(), id);
        if s.last().0 == id {
            assert(s[s.len() - 1].0 == id);
        } else {
            if has_key(s.drop_last(), id) {
                let i = choose|i: int| 0 <= i < s.drop_last().len() && s.drop_last()[i].0 == id;
                assert(s[i].0 == id);
            }
            if has_key(s, id) {
                let i = choose|i: int| 0 <= i < s.len() && s[i].0 == id;
                assert(s.drop_last()[i].0 == id);
            }
        }
    }
}

pub proof fn lemma_map_of_index<T>(s: Seq<(u128, T)>, i: int)
    requires
        keys_distinct(s),
        0 <= i < s.len(),
    ensures
        map_of(s).contains_key(s[i].0),
        map_of(s)[s[i].0] == s[i].1,
    decreases s.len(),
{
    if i == s.len() - 1 {
    } else {
        assert(keys_distinct(s.drop_last()));
        assert(s.drop_last()[i] == s[i]);
        lemma_map_of_index(s.drop_last(), i);
        assert(s.last().0 != s[i].0);
    }
}

/// Removing entry `i` removes exactly its key from the represented map.
pub proof fn lemma_map_of_remove<T>(s: Seq<(u128, T)>, i: int)
    requires
        keys_distinct(s),
        0 <= i < s.len(),
    ensures
        map_of(s.remove(i)) == map_of(s).remove(s[i].0),
    decreases s.len(),
{
    if i == s.len() - 1 {
        assert(s.remove(i) =~= s.drop_last());
        lemma_map_of_has_key(s.drop_last(), s[i].0);
        assert(!has_key(s.drop_last(), s[i].0)) by {
            if has_key(s.drop_last(), s[i].0) {
                let j = choose|j: int|
                    0 <= j < s.drop_last().len() && s.drop_last()[j].0 == s[i].0;
                assert(s[j].0 == s[i].0);
            }
        }
        assert(map_of(s.drop_last()) =~= map_of(s).remove(s[i].0));
    } else {
        assert(keys_distinct(s.drop_last()));
        lemma_map_of_remove(s.drop_last(), i);
        assert(s.remove(i).drop_last() =~= s.drop_last().remove(i));
        assert(s.remove(i).last() == s.last());
        assert(s.remove(i).len() == s.len() - 1);
        assert(map_of(s.remove(i)) == map_of(s.drop_last().remove(i)).insert(
            s.last().0,
            s.last().1,
        ));
        assert(s.drop_last()[i] == s[i]);
        assert(map_of(s.remove(i)) =~= map_of(s).remove(s[i].0)) by {
            assert(map_of(s.remove(i)) == map_of(s.drop_last()).remove(s[i].0).insert(
                s.last().0,
                s.last().1,
            ));
            assert(s.last().0 != s[i].0);
        }
    }
}

/// Replacing the value of entry `i` updates exactly its key.
pub proof fn lemma_map_of_update<T>(s: Seq<(u128, T)>, i: int, v: T)
    requires
        keys_distinct(s),
        0 <= i < s.len(),
    ensures
        map_of(s.update(i, (s[i].0, v))) == map_of(s).insert(s[i].0, v),
        keys_distinct(s.update(i, (s[i].0, v))),
    decreases s.len(),
{
    let t = s.update(i, (s[i].0, v));
    assert(keys_distinct(t)) by {
        assert(forall|k: int| 0 <= k < s.len() ==> t[k].0 == s[k].0);
    }
    if i == s.len() - 1 {
        assert(t.drop_last() =~= s.drop_last());
        assert(t.last() == (s[i].0, v));
        assert(map_of(t) =~= map_of(s).insert(s[i].0, v));
    } else {
        assert(keys_distinct(s.drop_last()));
        assert(s.drop_last()[i] == s[i]);
        lemma_map_of_update(s.drop_last(), i, v);
        assert(t.drop_last() =~= s.drop_last().update(i, (s[i].0, v)));
        assert(t.last() == s.last());
        assert(map_of(t) == map_of(s.drop_last()).insert(s[i].0, v).insert(
            s.last().0,
            s.last().1,
        ));
        assert(s.last().0 != s[i].0);
        assert(map_of(t) =~= map_of(s).insert(s[i].0, v));
    }
}

/// Appending an entry inserts its key into the represented map.
pub proof fn lemma_map_of_push<T>(s: Seq<(u128, T)>, id: u128, v: T)
    ensures
        map_of(s.push((id, v))) == map_of(s).insert(id, v),
{
    assert(s.push((id, v)).drop_last() =~= s);
    assert(s.push((id, v)).last() == (id, v));
}

/// Among the values `0..=s.len()` there is one that no entry carries:
/// there is one more candidate value than there are entries.
pub proof fn lemma_unused_key_exists<T>(s: Seq<(u128, T)>)
    requires
        keys_distinct(s),
        s.len() < u128::MAX as nat,
    ensures
        exists|c: u128| c as nat <= s.len() && !has_key(s, c),
    decreases s.len(),
{
    let n = s.len();
    if !has_key(s, n as u128) {
        assert((n as u128) as nat <= s.len() && !has_key(s, n as u128));
    } else {
        let i = choose|i: int| 0 <= i < s.len() && s[i].0 == n as u128;
        let s2 = s.remove(i);
        assert(keys_distinct(s2)) by {
            assert(forall|k: int| 0 <= k < i ==> s2[k] == s[k]);
            assert(forall|k: int| i <= k < s2.len() ==> s2[k] == s[k + 1]);
        }
        lemma_unused_key_exists(s2);
        let c = choose|c: u128| c as nat <= s2.len() && !has_key(s2, c);
        assert(!has_key(s, c)) by {
            if has_key(s, c) {
                let j = choose|j: int| 0 <= j < s.len() && s[j].0 == c;
                if j < i {
                    assert(s2[j].0 == c);
                } else if j > i {
                    assert(s2[j - 1].0 == c);
                } else {
                    assert(c == n as u128);
                }
            }
        }
        assert(c as nat <= s.len() && !has_key(s, c));
    }
}

/// An identifier-keyed map of entities, stored as entries with pairwise
/// distinct identifiers.
pub struct IdMap<V> {
    pub entries: Vec<Entry<V>>,
}

impl<V: View> View for IdMap<V> {
    type V = Seq<(u128, V::V)>;

    open spec fn view(&self) -> Seq<(u128, V::V)> {
        self.entries@.map_values(|e: Entry<V>| e@)
    }
}

impl<V: View> IdMap<V> {
    /// The identifiers of the entries are pairwise distinct.
    pub open spec fn wf(&self) -> bool {
        keys_distinct(self@)
    }

    /// The mapping this value represents.
    pub open spec fn as_map(&self) -> Map<u128, V::V> {
        map_of(self@)
    }

    pub fn new() -> (r: Self)
        ensures
            r@ == Seq::<(u128, V::V)>::empty(),
            r.as_map() == Map::<u128, V::V>::empty(),
            r.wf(),
    {
        let r = IdMap { entries: Vec::new() };
        proof {
            assert(r@ =~= Seq::<(u128, V::V)>::empty());
        }
        r
    }

    pub fn len(&self) -> (r: usize)
        ensures
            r == self@.len(),
    {
        self.entries.len()
    }

    /// Position of the entry carrying `id`, if any.
    pub fn index_of(&self, id: u128) -> (r: Option<usize>)
        ensures
            match r {
                Some(i) => i < self@.len() && self@[i as int].0 == id,
                None => !has_key(self@, id),
            },
    {
        let n = self.entries.len();
        for i in 0..n
            invariant
                n == self@.len(),
                forall|k: int| 0 <= k < i ==> self@[k].0 != id,
        {
            if self.entries[i].id == id {
                return Some(i);
            }
        }
        None
    }

    pub fn contains_key(&self, id: u128) -> (r: bool)
        ensures
            r == self.as_map().contains_key(id),
    {
        proof {
            lemma_map_of_has_key(self@, id);
        }
        match self.index_of(id) {
            Some(_) => true,
            None => false,
        }
    }

    pub fn get(&self, id: u128) -> (r: Option<&V>)
        requires
            self.wf(),
        ensures
            match r {
                Some(v) => self.as_map().contains_key(id) && v@ == self.as_map()[id],
                None => !self.as_map().contains_key(id),
            },
    {
        proof {
            lemma_map_of_has_key(self@, id);
        }
        match self.index_of(id) {
            Some(i) => {
                proof {
                    lemma_map_of_index(self@, i as int);
                }
                Some(&self.entries[i].val)
            },
            None => None,
        }
    }

    /// Insert `val` under `id`, replacing any entry that carried `id`.
    pub fn insert(&mut self, id: u128, val: V)
        requires
            old(self).wf(),
        ensures
            final(self).wf(),
            final(self).as_map() == old(self).as_map().insert(id, val@),
            !old(self).as_map().contains_key(id) ==> final(self)@ == old(self)@.push((id, val@)),
    {
        let ghost s0 = self@;
        proof {
            lemma_map_of_has_key(s0, id);
        }
        match self.index_of(id) {
            Some(i) => {
                proof {
                    lemma_map_of_remove(s0, i as int);
                }
                self.entries.remove(i);
                proof {
                    assert(self@ =~= s0.remove(i as int));
                    assert(keys_distinct(self@)) by {
                        assert(forall|k: int| 0 <= k < i ==> self@[k] == s0[k]);
                        assert(forall|k: int|
                            i <= k < self@.len() ==> self@[k] == s0[k + 1]);
                    }
                }
                let ghost s1 = self@;
                proof {
                    lemma_map_of_push(s1, id, val@);
                }
                self.entries.push(Entry { id, val });
                proof {
                    assert(self@ =~= s1.push((id, val@)));
                    assert(keys_distinct(self@)) by {
                        assert(!has_key(s1, id)) by {
                            if has_key(s1, id) {
                                let k = choose|k: int| 0 <= k < s1.len() && s1[k].0 == id;
                                if k < i {
                                    assert(s1[k] == s0[k]);
                                } else {
                                    assert(s1[k] == s0[k + 1]);
                                }
                            }
                        }
                    }
                    assert(final(self).as_map() =~= old(self).as_map().insert(id, val@));
                }
            },
            None => {
                proof {
                    lemma_map_of_push(s0, id, val@);
                }
                self.entries.push(Entry { id, val });
                proof {
                    assert(self@ =~= s0.push((id, val@)));
                    assert(keys_distinct(self@));
                }
            },
        }
    }

    /// Remove the entry carrying `id`; the map is unchanged when `id` is
    /// absent.
    pub fn remove(&mut self, id: u128) -> (r: bool)
        requires
            old(self).wf(),
        ensures
            final(self).wf(),
            final(self).as_map() == old(self).as_map().remove(id),
            r == old(self).as_map().contains_key(id),
    {
        let ghost s0 = self@;
        proof {
            lemma_map_of_has_key(s0, id);
        }
        match self.index_of(id) {
            Some(i) => {
                proof {
                    lemma_map_of_remove(s0, i as int);
                }
                self.entries.remove(i);
                proof {
                    assert(self@ =~= s0.remove(i as int));
                    assert(keys_distinct(self@)) by {
                        assert(forall|k: int, l: int|
                            0 <= k < l < self@.len() ==> self@[k].0 != self@[l].0) by {
                            assert(forall|k: int|
                                0 <= k < i ==> self@[k] == s0[k]);
                            assert(forall|k: int|
                                i <= k < self@.len() ==> self@[k] == s0[k + 1]);
                        }
                    }
                }
                true
            },
            None => {
                proof {
                    assert(old(self).as_map() =~= old(self).as_map().remove(id));
                }
                false
            },
        }
    }
}

} // verus!

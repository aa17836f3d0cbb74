//! A map from cache keys to ready-made entries, held in memory for the
//! lifetime of the process.

use vstd::prelude::*;
use crate::text::{has_prefix, str_eq};

verus! {

/// A finite map from strings to entries. No key occurs twice; nothing is ever
/// evicted for want of room.
pub struct CacheMap<V> {
    entries: Vec<(String, V)>,
}

/// Where `key` lies in `entries`, if it lies there.
pub open spec fn holds_key_at<V>(entries: Seq<(String, V)>, key: Seq<char>, i: int) -> bool {
    0 <= i < entries.len() && entries[i].0@ == key
}

/// What `entries` stands for as a map.
pub open spec fn map_of<V>(entries: Seq<(String, V)>) -> Map<Seq<char>, V> {
    Map::new(
        |key: Seq<char>| exists|i: int| holds_key_at(entries, key, i),
        |key: Seq<char>| entries[choose|i: int| holds_key_at(entries, key, i)].1,
    )
}

/// No key occurs twice in `entries`.
pub open spec fn distinct_keys<V>(entries: Seq<(String, V)>) -> bool {
    forall|i: int, j: int|
        0 <= i < j < entries.len() ==> entries[i].0@ != entries[j].0@
}

proof fn lemma_map_of_at<V>(entries: Seq<(String, V)>, i: int)
    requires
        distinct_keys(entries),
        0 <= i < entries.len(),
    ensures
        map_of(entries).contains_key(entries[i].0@),
        map_of(entries)[entries[i].0@] == entries[i].1,
{
    let key = entries[i].0@;
    assert(holds_key_at(entries, key, i));
    let c = choose|c: int| holds_key_at(entries, key, c);
    assert(holds_key_at(entries, key, c));
    if c < i {
        assert(entries[c].0@ != entries[i].0@);
    } else if i < c {
        assert(entries[i].0@ != entries[c].0@);
    }
}

proof fn lemma_map_of_remove<V>(entries: Seq<(String, V)>, i: int)
    requires
        distinct_keys(entries),
        0 <= i < entries.len(),
    ensures
        distinct_keys(entries.remove(i)),
        map_of(entries.remove(i)) == map_of(entries).remove(entries[i].0@),
{
    let after = entries.remove(i);
    let gone = entries[i].0@;
    assert forall|a: int, b: int| 0 <= a < b < after.len() implies after[a].0@ != after[b].0@ by {
        let a0 = if a < i { a } else { a + 1 };
        let b0 = if b < i { b } else { b + 1 };
        assert(after[a] == entries[a0]);
        assert(after[b] == entries[b0]);
    }
    assert forall|k: Seq<char>| #[trigger]
        map_of(entries).remove(gone).contains_key(k) implies map_of(after).contains_key(k) by {
        let j = choose|j: int| holds_key_at(entries, k, j);
        assert(holds_key_at(entries, k, j));
        let j1 = if j < i { j } else { j - 1 };
        assert(after[j1] == entries[j]);
        assert(holds_key_at(after, k, j1));
    }
    assert forall|k: Seq<char>| #[trigger] map_of(after).contains_key(k) implies map_of(
        entries,
    ).remove(gone).contains_key(k) && map_of(after)[k] == map_of(entries).remove(gone)[k] by {
        let j = choose|j: int| holds_key_at(after, k, j);
        assert(holds_key_at(after, k, j));
        let j0 = if j < i { j } else { j + 1 };
        assert(after[j] == entries[j0]);
        assert(holds_key_at(entries, k, j0));
        if j0 < i {
            assert(entries[j0].0@ != entries[i].0@);
        } else {
            assert(entries[i].0@ != entries[j0].0@);
        }
        lemma_map_of_at(after, j);
        lemma_map_of_at(entries, j0);
    }
    assert(map_of(after) =~= map_of(entries).remove(gone));
}

/// The keys that start with `prefix`.
pub open spec fn prefixed_keys(prefix: Seq<char>) -> Set<Seq<char>> {
    Set::new(|key: Seq<char>| prefix.is_prefix_of(key))
}

proof fn lemma_map_of_finite<V>(entries: Seq<(String, V)>)
    requires
        distinct_keys(entries),
    ensures
        map_of(entries).dom().finite(),
        map_of(entries).dom().len() == entries.len(),
    decreases entries.len(),
{
    if entries.len() == 0 {
        assert(map_of(entries).dom() =~= Set::<Seq<char>>::empty());
    } else {
        let last = entries.len() - 1;
        lemma_map_of_remove(entries, last);
        let rest = entries.remove(last);
        lemma_map_of_finite(rest);
        lemma_map_of_at(entries, last);
        let key = entries[last].0@;
        assert(map_of(entries).dom() =~= map_of(rest).dom().insert(key));
    }
}

impl<V> View for CacheMap<V> {
    type V = Map<Seq<char>, V>;

    closed spec fn view(&self) -> Map<Seq<char>, V> {
        map_of(self.entries@)
    }
}

impl<V> CacheMap<V> {
    #[verifier::type_invariant]
    spec fn well_formed(self) -> bool {
        distinct_keys(self.entries@)
    }

    /// A cache that holds nothing.
    pub fn new() -> (cache: Self)
        ensures
            cache@ == Map::<Seq<char>, V>::empty(),
    {
        let cache = CacheMap { entries: Vec::new() };
        assert(cache@ =~= Map::<Seq<char>, V>::empty());
        cache
    }

    fn position(&self, key: &str) -> (at: Option<usize>)
        ensures
            match at {
                Some(i) => holds_key_at(self.entries@, key@, i as int),
                None => !self@.contains_key(key@),
            },
    {
        let mut i: usize = 0;
        while i < self.entries.len()
            invariant
                i <= self.entries.len(),
                forall|j: int| 0 <= j < i ==> self.entries@[j].0@ != key@,
            decreases self.entries.len() - i,
        {
            if str_eq(self.entries[i].0.as_str(), key) {
                return Some(i);
            }
            i += 1;
        }
        assert(!self@.contains_key(key@)) by {
            if self@.contains_key(key@) {
                let j = choose|j: int| holds_key_at(self.entries@, key@, j);
                assert(holds_key_at(self.entries@, key@, j));
            }
        }
        None
    }

    /// The entry stored under `key`, if there is one.
    pub fn get(&self, key: &str) -> (found: Option<&V>)
        ensures
            match found {
                Some(entry) => self@.contains_key(key@) && *entry == self@[key@],
                None => !self@.contains_key(key@),
            },
    {
        proof {
            use_type_invariant(self);
        }
        match self.position(key) {
            Some(i) => {
                proof {
                    lemma_map_of_at(self.entries@, i as int);
                }
                Some(&self.entries[i].1)
            },
            None => None,
        }
    }

    /// Whether an entry is stored under `key`.
    pub fn contains_key(&self, key: &str) -> (found: bool)
        ensures
            found == self@.contains_key(key@),
    {
        match self.position(key) {
            Some(i) => {
                proof {
                    use_type_invariant(self);
                    lemma_map_of_at(self.entries@, i as int);
                }
                true
            },
            None => false,
        }
    }

    /// How many entries are stored.
    pub fn len(&self) -> (count: usize)
        ensures
            count == self@.dom().len(),
            self@.dom().finite(),
    {
        proof {
            use_type_invariant(self);
            lemma_map_of_finite(self.entries@);
        }
        self.entries.len()
    }

    /// Drops the entry stored under `key`, if there is one; every other entry
    /// stays.
    pub fn remove(&mut self, key: &str)
        ensures
            final(self)@ == old(self)@.remove(key@),
    {
        proof {
            use_type_invariant(&*self);
        }
        let at = self.position(key);
        let mut entries: Vec<(String, V)> = Vec::new();
        std::mem::swap(&mut self.entries, &mut entries);
        match at {
            Some(i) => {
                proof {
                    lemma_map_of_remove(entries@, i as int);
                }
                let _ = entries.remove(i);
            },
            None => {
                assert(map_of(entries@) =~= map_of(entries@).remove(key@));
            },
        }
        self.entries = entries;
    }

    /// Drops every entry whose key starts with `prefix`; every other entry
    /// stays.
    pub fn remove_prefixed(&mut self, prefix: &str)
        ensures
            final(self)@ == old(self)@.remove_keys(prefixed_keys(prefix@)),
    {
        proof {
            use_type_invariant(&*self);
        }
        let ghost before = self.entries@;
        let mut entries: Vec<(String, V)> = Vec::new();
        std::mem::swap(&mut self.entries, &mut entries);
        let ghost mut gone: Set<Seq<char>> = Set::empty();
        let mut i: usize = 0;
        assert(map_of(entries@) =~= map_of(before).remove_keys(gone));
        while i < entries.len()
            invariant
                i <= entries.len(),
                distinct_keys(entries@),
                forall|j: int| 0 <= j < i ==> !prefix@.is_prefix_of(#[trigger] entries@[j].0@),
                forall|k: Seq<char>| gone.contains(k) ==> prefix@.is_prefix_of(k),
                map_of(entries@) == map_of(before).remove_keys(gone),
            decreases entries.len() - i,
        {
            if has_prefix(entries[i].0.as_str(), prefix) {
                proof {
                    lemma_map_of_remove(entries@, i as int);
                    assert(map_of(before).remove_keys(gone).remove(entries@[i as int].0@)
                        =~= map_of(before).remove_keys(gone.insert(entries@[i as int].0@)));
                    gone = gone.insert(entries@[i as int].0@);
                }
                let _ = entries.remove(i);
            } else {
                i += 1;
            }
        }
        proof {
            let after = entries@;
            let wanted = map_of(before).remove_keys(prefixed_keys(prefix@));
            assert forall|k: Seq<char>| #[trigger]
                map_of(after).contains_key(k) implies wanted.contains_key(k) by {
                let j = choose|j: int| holds_key_at(after, k, j);
                assert(holds_key_at(after, k, j));
                assert(!prefix@.is_prefix_of(after[j].0@));
            }
            assert(map_of(after) =~= wanted);
        }
        self.entries = entries;
    }

    /// Stores `value` under `key`, in place of what was stored there before.
    pub fn insert(&mut self, key: String, value: V)
        ensures
            final(self)@ == old(self)@.insert(key@, value),
    {
        proof {
            use_type_invariant(&*self);
        }
        let ghost before = self.entries@;
        let at = self.position(key.as_str());
        let mut entries: Vec<(String, V)> = Vec::new();
        std::mem::swap(&mut self.entries, &mut entries);
        match at {
            Some(i) => {
                entries.set(i, (key, value));
                let ghost after = entries@;
                assert(distinct_keys(after)) by {
                    assert forall|a: int, b: int| 0 <= a < b < after.len() implies after[a].0@
                        != after[b].0@ by {
                        assert(after[a].0@ == before[a].0@);
                        assert(after[b].0@ == before[b].0@);
                    }
                }
                assert(map_of(after) =~= map_of(before).insert(key@, value)) by {
                    assert forall|k: Seq<char>| #[trigger]
                        map_of(before).insert(key@, value).contains_key(k) implies map_of(
                        after,
                    ).contains_key(k) by {
                        if k == key@ {
                            assert(holds_key_at(after, k, i as int));
                        } else {
                            let j = choose|j: int| holds_key_at(before, k, j);
                            assert(holds_key_at(before, k, j));
                            assert(holds_key_at(after, k, j));
                        }
                    }
                    assert forall|k: Seq<char>| #[trigger]
                        map_of(after).contains_key(k) implies map_of(before).insert(
                        key@,
                        value,
                    ).contains_key(k) by {
                        let j = choose|j: int| holds_key_at(after, k, j);
                        assert(holds_key_at(after, k, j));
                        assert(holds_key_at(before, k, j));
                    }
                    assert forall|k: Seq<char>| #[trigger]
                        map_of(after).contains_key(k) implies map_of(after)[k] == map_of(
                        before,
                    ).insert(key@, value)[k] by {
                        let j = choose|j: int| holds_key_at(after, k, j);
                        assert(holds_key_at(after, k, j));
                        lemma_map_of_at(after, j);
                        if k != key@ {
                            assert(j != i);
                            lemma_map_of_at(before, j);
                        } else {
                            if j < i {
                                assert(after[j].0@ != after[i as int].0@);
                            } else if i < j {
                                assert(after[i as int].0@ != after[j].0@);
                            }
                        }
                    }
                }
            },
            None => {
                entries.push((key, value));
                let ghost after = entries@;
                assert(distinct_keys(after)) by {
                    assert forall|a: int, b: int| 0 <= a < b < after.len() implies after[a].0@
                        != after[b].0@ by {
                        if b == before.len() {
                            if before[a].0@ == key@ {
                                assert(holds_key_at(before, key@, a));
                            }
                        } else {
                            assert(after[a] == before[a]);
                            assert(after[b] == before[b]);
                        }
                    }
                }
                assert(map_of(after) =~= map_of(before).insert(key@, value)) by {
                    assert forall|k: Seq<char>| #[trigger]
                        map_of(before).insert(key@, value).contains_key(k) implies map_of(
                        after,
                    ).contains_key(k) by {
                        if k == key@ {
                            assert(holds_key_at(after, k, before.len() as int));
                        } else {
                            let j = choose|j: int| holds_key_at(before, k, j);
                            assert(holds_key_at(before, k, j));
                            assert(holds_key_at(after, k, j));
                        }
                    }
                    assert forall|k: Seq<char>| #[trigger]
                        map_of(after).contains_key(k) implies map_of(before).insert(
                        key@,
                        value,
                    ).contains_key(k) by {
                        let j = choose|j: int| holds_key_at(after, k, j);
                        assert(holds_key_at(after, k, j));
                        if j < before.len() {
                            assert(holds_key_at(before, k, j));
                        }
                    }
                    assert forall|k: Seq<char>| #[trigger]
                        map_of(after).contains_key(k) implies map_of(after)[k] == map_of(
                        before,
                    ).insert(key@, value)[k] by {
                        let j = choose|j: int| holds_key_at(after, k, j);
                        assert(holds_key_at(after, k, j));
                        lemma_map_of_at(after, j);
                        if j < before.len() {
                            assert(holds_key_at(before, k, j));
                            lemma_map_of_at(before, j);
                            assert(after[j] == before[j]);
                        }
                    }
                }
            },
        }
        self.entries = entries;
    }
}

} // verus!

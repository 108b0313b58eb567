//! A small map from names to values, kept as a list.

use vstd::prelude::*;
use vstd::string::*;

use crate::text::same;

verus! {

/// A map with string keys. Lookups walk the list, which suits the handful of
/// names that a table or a row group has.
#[derive(Debug)]
pub struct Assoc<V> {
    entries: Vec<(String, V)>,
}

/// What a list of entries maps: a later entry hides an earlier one.
pub closed spec fn entries_map<V>(entries: Seq<(String, V)>) -> Map<Seq<char>, V>
    decreases entries.len(),
{
    if entries.len() == 0 {
        Map::empty()
    } else {
        entries_map(entries.drop_last()).insert(entries.last().0@, entries.last().1)
    }
}

/// The entries whose key is not `key`.
spec fn without<V>(entries: Seq<(String, V)>, key: Seq<char>) -> Seq<(String, V)>
    decreases entries.len(),
{
    if entries.len() == 0 {
        Seq::empty()
    } else if entries.last().0@ == key {
        without(entries.drop_last(), key)
    } else {
        without(entries.drop_last(), key).push(entries.last())
    }
}

impl<V> View for Assoc<V> {
    type V = Map<Seq<char>, V>;

    closed spec fn view(&self) -> Map<Seq<char>, V> {
        entries_map(self.entries@)
    }
}

proof fn lemma_without<V>(entries: Seq<(String, V)>, key: Seq<char>)
    ensures
        entries_map(without(entries, key)) == entries_map(entries).remove(key),
    decreases entries.len(),
{
    if entries.len() == 0 {
        assert(entries_map(without(entries, key)) =~= entries_map(entries).remove(key));
    } else {
        let front = entries.drop_last();
        lemma_without(front, key);
        let all = entries_map(entries);
        if entries.last().0@ == key {
            assert(all.remove(key) =~= entries_map(front).remove(key));
        } else {
            let kept = without(entries, key);
            assert(kept.drop_last() =~= without(front, key));
            assert(entries_map(kept) =~= all.remove(key));
        }
    }
}

proof fn lemma_no_match_behind<V>(entries: Seq<(String, V)>, i: int, key: Seq<char>)
    requires
        0 <= i <= entries.len(),
        forall|j: int| i <= j < entries.len() ==> (#[trigger] entries[j]).0@ != key,
    ensures
        entries_map(entries).contains_key(key) == entries_map(entries.take(i)).contains_key(key),
        entries_map(entries)[key] == entries_map(entries.take(i))[key],
    decreases entries.len() - i,
{
    if i == entries.len() {
        assert(entries.take(i) =~= entries);
    } else {
        lemma_no_match_behind(entries, i + 1, key);
        assert(entries.take(i + 1).drop_last() =~= entries.take(i));
        assert(entries.take(i + 1).last() == entries[i]);
    }
}

impl<V> Assoc<V> {
    /// The empty map.
    pub fn new() -> (r: Self)
        ensures
            r@ == Map::<Seq<char>, V>::empty(),
    {
        Assoc { entries: Vec::new() }
    }

    /// The value of `key`.
    pub fn get(&self, key: &str) -> (r: Option<&V>)
        ensures
            match r {
                Some(v) => self@.contains_key(key@) && self@[key@] == *v,
                None => !self@.contains_key(key@),
            },
    {
        let mut i: usize = self.entries.len();
        assert(self.entries@.take(i as int) =~= self.entries@);
        while i > 0
            invariant
                i <= self.entries@.len(),
                forall|j: int|
                    i <= j < self.entries@.len() ==> (#[trigger] self.entries@[j]).0@ != key@,
            decreases i,
        {
            if same(self.entries[i - 1].0.as_str(), key) {
                proof {
                    lemma_no_match_behind(self.entries@, i as int, key@);
                    assert(self.entries@.take(i as int).last() == self.entries@[i - 1]);
                }
                return Some(&self.entries[i - 1].1);
            }
            i = i - 1;
        }
        proof {
            lemma_no_match_behind(self.entries@, 0, key@);
            assert(self.entries@.take(0) =~= Seq::<(String, V)>::empty());
        }
        None
    }

    /// Take `key` out and return its value.
    pub fn remove(&mut self, key: &str) -> (r: Option<V>)
        ensures
            final(self)@ == old(self)@.remove(key@),
            match r {
                Some(v) => old(self)@.contains_key(key@) && old(self)@[key@] == v,
                None => !old(self)@.contains_key(key@),
            },
    {
        let ghost all = self.entries@;
        let ghost mut done: int = 0;
        let mut found: Option<V> = None;
        let mut i: usize = 0;
        assert(all.take(0) =~= Seq::<(String, V)>::empty());
        assert(self.entries@.take(0) =~= without(all.take(0), key@));
        assert(all.skip(0) =~= all);
        assert(self.entries@.skip(0) =~= all);
        while i < self.entries.len()
            invariant
                0 <= done <= all.len(),
                i <= self.entries@.len(),
                self.entries@.take(i as int) == without(all.take(done), key@),
                self.entries@.skip(i as int) == all.skip(done),
                match found {
                    Some(v) => entries_map(all.take(done)).contains_key(key@) && entries_map(
                        all.take(done),
                    )[key@] == v,
                    None => !entries_map(all.take(done)).contains_key(key@),
                },
            decreases self.entries.len() - i,
        {
            let ghost now = self.entries@;
            proof {
                assert(now.skip(i as int).len() == all.skip(done).len());
                assert(done < all.len());
                assert(now.skip(i as int)[0] == now[i as int]);
                assert(all.skip(done)[0] == all[done]);
                assert(all.take(done + 1).drop_last() =~= all.take(done));
                assert(all.take(done + 1).last() == all[done]);
            }
            if same(self.entries[i].0.as_str(), key) {
                let (_, v) = self.entries.remove(i);
                found = Some(v);
                proof {
                    assert(self.entries@.take(i as int) =~= now.take(i as int));
                    assert(self.entries@.skip(i as int) =~= all.skip(done + 1)) by {
                        assert(self.entries@.skip(i as int) =~= now.skip(i as int).skip(1));
                        assert(all.skip(done).skip(1) =~= all.skip(done + 1));
                    }
                }
            } else {
                i = i + 1;
                proof {
                    assert(self.entries@.take(i as int) =~= now.take(i - 1).push(now[i - 1]));
                    assert(self.entries@.skip(i as int) =~= all.skip(done + 1)) by {
                        assert(self.entries@.skip(i as int) =~= now.skip(i - 1).skip(1));
                        assert(all.skip(done).skip(1) =~= all.skip(done + 1));
                    }
                }
            }
            proof {
                done = done + 1;
            }
        }
        proof {
            assert(self.entries@.skip(i as int).len() == 0);
            assert(all.skip(done).len() == all.len() - done);
            assert(all.take(done) =~= all);
            assert(self.entries@.take(i as int) =~= self.entries@);
            lemma_without(all, key@);
        }
        found
    }

    /// Map `key` to `value`.
    pub fn insert(&mut self, key: &str, value: V)
        ensures
            final(self)@ == old(self)@.insert(key@, value),
    {
        let ghost before = self@;
        self.remove(key);
        let ghost kept = self.entries@;
        self.entries.push((String::from_str(key), value));
        proof {
            assert(self.entries@.drop_last() =~= kept);
            assert(self@ =~= before.insert(key@, value));
        }
    }
}

} // verus!

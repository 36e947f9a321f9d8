//! A string-keyed association list with last-write-wins semantics, modelled
//! as a `Map` from character sequences to values. It stands in for a hash
//! map wherever the document model keeps anchor ids, file start offsets or
//! manifest entries.
use vstd::prelude::*;

verus! {

/// A map from strings to values of type `V`. Insertion order is kept
/// internally; a later insertion of the same key wins.
#[derive(Debug, Clone)]
pub struct StrMap<V> {
    entries: Vec<(String, V)>,
}

/// The map denoted by an entry list: each entry overrides earlier ones.
pub open spec fn map_of_entries<V>(entries: Seq<(String, V)>) -> Map<Seq<char>, V>
    decreases entries.len(),
{
    if entries.len() == 0 {
        Map::empty()
    } else {
        map_of_entries(entries.drop_last()).insert(entries.last().0@, entries.last().1)
    }
}

/// The value of the last entry whose key reads `key`, if any.
pub open spec fn lookup_entries<V>(entries: Seq<(String, V)>, key: Seq<char>) -> Option<V>
    decreases entries.len(),
{
    if entries.len() == 0 {
        None
    } else if entries.last().0@ == key {
        Some(entries.last().1)
    } else {
        lookup_entries(entries.drop_last(), key)
    }
}

proof fn lemma_lookup_matches_map<V>(entries: Seq<(String, V)>, key: Seq<char>)
    ensures
        lookup_entries(entries, key) == if map_of_entries(entries).contains_key(key) {
            Some(map_of_entries(entries)[key])
        } else {
            None::<V>
        },
    decreases entries.len(),
{
    if entries.len() > 0 {
        lemma_lookup_matches_map(entries.drop_last(), key);
    }
}

impl<V> View for StrMap<V> {
    type V = Map<Seq<char>, V>;

    closed spec fn view(&self) -> Map<Seq<char>, V> {
        map_of_entries(self.entries@)
    }
}

impl<V> StrMap<V> {
    /// An empty map.
    pub fn new() -> (r: Self)
        ensures
            r@ == Map::<Seq<char>, V>::empty(),
    {
        StrMap { entries: Vec::new() }
    }

    /// Binds `key` to `value`; an earlier binding of the same key is
    /// superseded.
    pub fn insert(&mut self, key: String, value: V)
        ensures
            final(self)@ == old(self)@.insert(key@, value),
    {
        let ghost k = key@;
        let ghost v = value;
        self.entries.push((key, value));
        proof {
            assert(self.entries@.drop_last() =~= old(self).entries@);
            assert(self.entries@.last().0@ == k);
        }
    }

    /// The value bound to `key`, if `key` is bound.
    pub fn get(&self, key: &String) -> (r: Option<&V>)
        ensures
            match r {
                Some(v) => self@.contains_key(key@) && *v == self@[key@],
                None => !self@.contains_key(key@),
            },
    {
        proof {
            lemma_lookup_matches_map(self.entries@, key@);
            assert(self.entries@.subrange(0, self.entries@.len() as int) =~= self.entries@);
        }
        let n = self.entries.len();
        let mut i: usize = n;
        while i > 0
            invariant
                i <= n,
                n == self.entries@.len(),
                lookup_entries(self.entries@, key@) == lookup_entries(
                    self.entries@.subrange(0, i as int),
                    key@,
                ),
            decreases i,
        {
            i = i - 1;
            let hit = self.entries[i].0.eq(key);
            proof {
                let pre = self.entries@.subrange(0, i + 1);
                assert(pre.len() == i + 1);
                assert(pre.last() == self.entries@[i as int]);
                if hit {
                    assert(pre.last().0@ == key@);
                    assert(lookup_entries(pre, key@) == Some(pre.last().1));
                } else {
                    assert(pre.drop_last() =~= self.entries@.subrange(0, i as int));
                    assert(lookup_entries(pre, key@) == lookup_entries(pre.drop_last(), key@));
                }
            }
            if hit {
                proof {
                    lemma_lookup_matches_map(self.entries@, key@);
                }
                return Some(&self.entries[i].1);
            }
        }
        proof {
            assert(self.entries@.subrange(0, 0) =~= Seq::<(String, V)>::empty());
        }
        None
    }

    /// Whether `key` is bound.
    pub fn contains_key(&self, key: &String) -> (r: bool)
        ensures
            r == self@.contains_key(key@),
    {
        self.get(key).is_some()
    }
}

} // verus!

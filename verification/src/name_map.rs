//! A map from names to values, kept as the list of its insertions.

use vstd::prelude::*;

verus! {

/// The map that a list of insertions builds: a later insertion of a name
/// replaces an earlier one.
pub open spec fn inserted<V>(entries: Seq<(String, V)>) -> Map<Seq<char>, V>
    decreases entries.len(),
{
    if entries.len() == 0 {
        Map::empty()
    } else {
        inserted(entries.drop_last()).insert(entries.last().0@, entries.last().1)
    }
}

/// A map from names to values.
#[derive(Debug)]
pub struct NameMap<V> {
    entries: Vec<(String, V)>,
}

impl<V> View for NameMap<V> {
    type V = Map<Seq<char>, V>;

    closed spec fn view(&self) -> Map<Seq<char>, V> {
        inserted(self.entries@)
    }
}

/// The last insertion of a name decides what the map holds for it.
proof fn lemma_inserted_last<V>(entries: Seq<(String, V)>, index: int, key: Seq<char>)
    requires
        0 <= index < entries.len(),
        entries[index].0@ == key,
        forall|j: int| index < j < entries.len() ==> (#[trigger] entries[j]).0@ != key,
    ensures
        inserted(entries).contains_key(key),
        inserted(entries)[key] == entries[index].1,
    decreases entries.len(),
{
    if index < entries.len() - 1 {
        assert(entries.last().0@ != key);
        lemma_inserted_last(entries.drop_last(), index, key);
    }
}

/// A name that was never inserted is not in the map.
proof fn lemma_inserted_absent<V>(entries: Seq<(String, V)>, key: Seq<char>)
    requires
        forall|j: int| 0 <= j < entries.len() ==> (#[trigger] entries[j]).0@ != key,
    ensures
        !inserted(entries).contains_key(key),
    decreases entries.len(),
{
    if entries.len() > 0 {
        assert(entries.last().0@ != key);
        lemma_inserted_absent(entries.drop_last(), key);
    }
}

/// A map built from a list of insertions is finite.
proof fn lemma_inserted_finite<V>(entries: Seq<(String, V)>)
    ensures
        inserted(entries).dom().finite(),
    decreases entries.len(),
{
    if entries.len() > 0 {
        lemma_inserted_finite(entries.drop_last());
    }
}

impl<V> NameMap<V> {
    /// The empty map.
    pub fn new() -> (r: Self)
        ensures
            r@ == Map::<Seq<char>, V>::empty(),
    {
        NameMap { entries: Vec::new() }
    }

    /// Puts `value` under `key`, in place of what was there.
    pub fn insert(&mut self, key: String, value: V)
        ensures
            final(self)@ == old(self)@.insert(key@, value),
    {
        let ghost before = self.entries@;
        self.entries.push((key, value));
        assert(self.entries@.drop_last() == before);
    }

    /// The index of the last insertion of `key`.
    fn position(&self, key: &str) -> (r: Option<usize>)
        ensures
            match r {
                Some(i) => i < self.entries@.len() && self@.contains_key(key@) && self@[key@]
                    == self.entries@[i as int].1,
                None => !self@.contains_key(key@),
            },
    {
        let wanted: String = key.to_owned();
        let mut i: usize = self.entries.len();
        while i > 0
            invariant
                i <= self.entries@.len(),
                wanted@ == key@,
                forall|j: int|
                    i <= j < self.entries@.len() ==> (#[trigger] self.entries@[j]).0@ != key@,
            decreases i,
        {
            i = i - 1;
            if self.entries[i].0 == wanted {
                proof {
                    lemma_inserted_last(self.entries@, i as int, key@);
                }
                return Some(i);
            }
        }
        proof {
            lemma_inserted_absent(self.entries@, key@);
        }
        None
    }

    /// What stands under `key`, if anything.
    pub fn get(&self, key: &str) -> (r: Option<&V>)
        ensures
            match r {
                Some(value) => self@.contains_key(key@) && *value == self@[key@],
                None => !self@.contains_key(key@),
            },
    {
        match self.position(key) {
            Some(i) => Some(&self.entries[i].1),
            None => None,
        }
    }

    /// Whether anything stands under `key`.
    pub fn contains_key(&self, key: &str) -> (r: bool)
        ensures
            r == self@.contains_key(key@),
    {
        self.position(key).is_some()
    }

    /// The names of the map are finitely many.
    pub proof fn lemma_finite(&self)
        ensures
            self@.dom().finite(),
    {
        lemma_inserted_finite(self.entries@);
    }
}

} // verus!

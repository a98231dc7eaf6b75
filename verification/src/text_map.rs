//! Maps from texts to values, kept in the order in which their keys came.

use vstd::prelude::*;

use crate::chars;
use crate::lists;

verus! {

/// A map from texts to values. Each key stands in it once, in the order of its first insertion.
#[derive(Debug)]
pub struct TextMap<V> {
    entries: Vec<(String, V)>,
}

/// The position of a key among some entries.
spec fn position_of<V>(entries: Seq<(String, V)>, key: Seq<char>) -> Option<int>
    decreases entries.len(),
{
    if entries.len() == 0 {
        None
    } else if entries.last().0@ == key {
        Some(entries.len() - 1)
    } else {
        position_of(entries.drop_last(), key)
    }
}

/// Each key stands among the entries once.
spec fn keys_differ<V>(entries: Seq<(String, V)>) -> bool {
    forall|i: int, j: int|
        0 <= i < j < entries.len() ==> (#[trigger] entries[i]).0@ != (#[trigger] entries[j]).0@
}

proof fn lemma_position_of<V>(entries: Seq<(String, V)>, key: Seq<char>)
    ensures
        match position_of(entries, key) {
            Some(i) => 0 <= i < entries.len() && entries[i].0@ == key,
            None => forall|i: int| 0 <= i < entries.len() ==> (#[trigger] entries[i]).0@ != key,
        },
    decreases entries.len(),
{
    if entries.len() > 0 && entries.last().0@ != key {
        let front = entries.drop_last();
        lemma_position_of(front, key);
        if position_of(front, key) is None {
            assert forall|i: int| 0 <= i < entries.len() implies (#[trigger] entries[i]).0@
                != key by {
                if i < front.len() {
                    assert(front[i].0@ != key);
                }
            }
        }
    }
}

/// The map that some entries make.
spec fn map_of<V>(entries: Seq<(String, V)>) -> Map<Seq<char>, V> {
    Map::new(
        |key: Seq<char>| position_of(entries, key) is Some,
        |key: Seq<char>| entries[position_of(entries, key)->0].1,
    )
}

/// The keys of the entries are those of the map, each one once.
proof fn lemma_keys<V>(entries: Seq<(String, V)>, keys: Seq<Seq<char>>)
    requires
        keys_differ(entries),
        keys == Seq::new(entries.len(), |i: int| entries[i].0@),
    ensures
        keys.no_duplicates(),
        forall|key: Seq<char>| keys.contains(key) == #[trigger] map_of(entries).contains_key(key),
{
    assert forall|i: int, j: int|
        0 <= i < keys.len() && 0 <= j < keys.len() && i != j implies keys[i] != keys[j] by {
        if i < j {
            assert(entries[i].0@ != entries[j].0@);
        } else {
            assert(entries[j].0@ != entries[i].0@);
        }
    }
    assert forall|key: Seq<char>| keys.contains(key) == #[trigger] map_of(entries).contains_key(
        key,
    ) by {
        lemma_position_of(entries, key);
        if keys.contains(key) {
            let i = choose|i: int| 0 <= i < keys.len() && keys[i] == key;
            assert(entries[i].0@ == key);
        }
        if map_of(entries).contains_key(key) {
            let i = position_of(entries, key)->0;
            assert(keys[i] == key);
        }
    }
}

/// A map of strings as a map of texts.
pub open spec fn text_values(map: Map<Seq<char>, String>) -> Map<Seq<char>, Seq<char>> {
    Map::new(|key: Seq<char>| map.contains_key(key), |key: Seq<char>| map[key]@)
}

impl<V> View for TextMap<V> {
    type V = Map<Seq<char>, V>;

    closed spec fn view(&self) -> Map<Seq<char>, V> {
        map_of(self.entries@)
    }
}

impl<V> TextMap<V> {
    #[verifier::type_invariant]
    spec fn keys_are_unique(self) -> bool {
        keys_differ(self.entries@)
    }

    /// The keys in their order.
    pub closed spec fn keys(self) -> Seq<Seq<char>> {
        Seq::new(self.entries@.len(), |i: int| self.entries@[i].0@)
    }

    /// An empty map.
    pub fn new() -> (map: Self)
        ensures
            map@ == Map::<Seq<char>, V>::empty(),
            map.keys() == Seq::<Seq<char>>::empty(),
    {
        let map = TextMap { entries: Vec::new() };
        assert(map@ =~= Map::<Seq<char>, V>::empty());
        map
    }

    /// The position of a key.
    fn position(&self, key: &str) -> (position: Option<usize>)
        ensures
            match position {
                Some(i) => i < self.entries@.len() && self.entries@[i as int].0@ == key@
                    && position_of(self.entries@, key@) == Some(i as int),
                None => position_of(self.entries@, key@) is None,
            },
    {
        proof {
            use_type_invariant(self);
            lemma_position_of(self.entries@, key@);
        }
        for i in 0..self.entries.len()
            invariant
                forall|j: int| 0 <= j < i ==> (#[trigger] self.entries@[j]).0@ != key@,
        {
            if chars::same_text(self.entries[i].0.as_str(), key) {
                proof {
                    use_type_invariant(self);
                    lemma_position_of(self.entries@, key@);
                }
                return Some(i);
            }
        }
        None
    }

    /// The value of a key.
    pub fn get(&self, key: &str) -> (value: Option<&V>)
        ensures
            match value {
                Some(v) => self@.contains_key(key@) && *v == self@[key@],
                None => !self@.contains_key(key@),
            },
    {
        match self.position(key) {
            Some(i) => Some(&self.entries[i].1),
            None => None,
        }
    }

    /// Whether the map holds a key.
    pub fn contains_key(&self, key: &str) -> (found: bool)
        ensures
            found == self@.contains_key(key@),
    {
        self.position(key).is_some()
    }

    /// How many keys the map holds.
    pub fn len(&self) -> (count: usize)
        ensures
            count == self.keys().len(),
            self.keys().no_duplicates(),
            forall|key: Seq<char>| self.keys().contains(key) == #[trigger] self@.contains_key(key),
    {
        proof {
            use_type_invariant(self);
            lemma_keys(self.entries@, self.keys());
        }
        self.entries.len()
    }

    /// The entry at a position.
    pub fn entry(&self, i: usize) -> (entry: (&str, &V))
        requires
            i < self.keys().len(),
        ensures
            entry.0@ == self.keys()[i as int],
            self@.contains_key(entry.0@),
            *entry.1 == self@[entry.0@],
    {
        proof {
            use_type_invariant(self);
            lemma_position_of(self.entries@, self.entries@[i as int].0@);
        }
        let entry = &self.entries[i];
        (entry.0.as_str(), &entry.1)
    }

    /// Sets the value of a key.
    pub fn insert(&mut self, key: String, value: V)
        ensures
            final(self)@ == old(self)@.insert(key@, value),
            final(self).keys() == if old(self)@.contains_key(key@) {
                old(self).keys()
            } else {
                old(self).keys().push(key@)
            },
    {
        let position = self.position(key.as_str());
        proof {
            use_type_invariant(&*self);
        }
        let ghost before = self.entries@;
        let ghost new_key = key@;
        let mut entries: Vec<(String, V)> = Vec::new();
        std::mem::swap(&mut entries, &mut self.entries);
        match position {
            Some(i) => {
                entries[i] = (key, value);
                assert(keys_differ(entries@));
            },
            None => {
                entries.push((key, value));
                proof {
                    lemma_position_of(before, new_key);
                }
                assert(keys_differ(entries@));
            },
        }
        proof {
            assert forall|k: Seq<char>|
                #![trigger map_of(entries@).dom().contains(k)]
                #![trigger map_of(entries@)[k]]
                map_of(entries@).dom().contains(k) == map_of(before).insert(
                    new_key,
                    value,
                ).contains_key(k) && (map_of(entries@).contains_key(k) ==> map_of(entries@)[k]
                    == map_of(before).insert(new_key, value)[k]) by {
                lemma_position_of(entries@, k);
                lemma_position_of(before, k);
                if let Some(i) = position_of(entries@, k) {
                    if k == new_key {
                        assert(entries@[i].1 == value);
                    } else {
                        assert(before[i] == entries@[i]);
                        let j = position_of(before, k)->0;
                        assert(entries@[j].0@ == k);
                    }
                } else if let Some(i) = position_of(before, k) {
                    assert(entries@[i].0@ == k);
                }
            }
            assert(map_of(entries@) =~= map_of(before).insert(new_key, value));
        }
        self.entries = entries;
        assert(self.keys() =~= if old(self)@.contains_key(new_key) {
            old(self).keys()
        } else {
            old(self).keys().push(new_key)
        });
    }

    /// Takes a key out of the map and gives its value.
    pub fn remove(&mut self, key: &str) -> (value: Option<V>)
        ensures
            final(self)@ == old(self)@.remove(key@),
            match value {
                Some(v) => old(self)@.contains_key(key@) && v == old(self)@[key@],
                None => !old(self)@.contains_key(key@),
            },
    {
        let position = self.position(key);
        match position {
            None => {
                assert(self@ =~= old(self)@.remove(key@));
                None
            },
            Some(i) => {
                proof {
                    use_type_invariant(&*self);
                }
                let ghost before = self.entries@;
                let mut entries: Vec<(String, V)> = Vec::new();
                std::mem::swap(&mut entries, &mut self.entries);
                let entry = entries.remove(i);
                proof {
                    assert forall|x: int, y: int|
                        0 <= x < y < entries@.len() implies (#[trigger] entries@[x]).0@ != (
                    #[trigger] entries@[y]).0@ by {
                        let old_x = if x < i {
                            x
                        } else {
                            x + 1
                        };
                        let old_y = if y < i {
                            y
                        } else {
                            y + 1
                        };
                        assert(before[old_x] == entries@[x] && before[old_y] == entries@[y]);
                    }
                    assert forall|k: Seq<char>|
                        #![trigger map_of(entries@).dom().contains(k)]
                        #![trigger map_of(entries@)[k]]
                        map_of(entries@).dom().contains(k) == map_of(before).remove(
                            key@,
                        ).dom().contains(k) && (map_of(entries@).dom().contains(k) ==> map_of(
                            entries@,
                        )[k] == map_of(before).remove(key@)[k]) by {
                        lemma_position_of(entries@, k);
                        lemma_position_of(before, k);
                        if let Some(x) = position_of(entries@, k) {
                            let old_x = if x < i {
                                x
                            } else {
                                x + 1
                            };
                            assert(before[old_x] == entries@[x]);
                            assert(before[i as int].0@ == key@);
                            let j = position_of(before, k)->0;
                            assert(before[j].0@ == before[old_x].0@);
                        } else if let Some(j) = position_of(before, k) {
                            if k != key@ {
                                let new_j = if j < i {
                                    j
                                } else {
                                    j - 1
                                };
                                assert(entries@[new_j] == before[j]);
                            }
                        }
                    }
                    assert(map_of(entries@) =~= map_of(before).remove(key@));
                }
                self.entries = entries;
                Some(entry.1)
            },
        }
    }
}

/// The map that some entries make. The last entry of a key counts.
pub open spec fn entry_texts(entries: Seq<(String, String)>) -> Map<Seq<char>, Seq<char>>
    decreases entries.len(),
{
    if entries.len() == 0 {
        Map::empty()
    } else {
        entry_texts(entries.drop_last()).insert(entries.last().0@, entries.last().1@)
    }
}

/// Makes a map of some entries.
pub fn collect_texts(entries: &Vec<(String, String)>) -> (map: TextMap<String>)
    ensures
        text_values(map@) == entry_texts(entries@),
{
    let mut map: TextMap<String> = TextMap::new();
    assert(text_values(map@) =~= Map::<Seq<char>, Seq<char>>::empty());
    for i in 0..entries.len()
        invariant
            text_values(map@) == entry_texts(entries@.take(i as int)),
    {
        assert(entries@.take(i + 1).drop_last() == entries@.take(i as int));
        let ghost before = map@;
        let key = entries[i].0.clone();
        let value = entries[i].1.clone();
        map.insert(key, value);
        assert(text_values(map@) =~= text_values(before).insert(key@, value@));
    }
    assert(entries@.take(entries@.len() as int) == entries@);
    map
}

/// Lists the entries of a map.
pub fn list_texts(map: &TextMap<String>) -> (entries: Vec<(String, String)>)
    ensures
        entry_texts(entries@) == text_values(map@),
{
    let mut entries: Vec<(String, String)> = Vec::new();
    let count = map.len();
    for i in 0..count
        invariant
            count == map.keys().len(),
            entries@.len() == i,
            forall|k: Seq<char>| #[trigger]
                entry_texts(entries@).dom().contains(k) == map.keys().take(i as int).contains(k),
            forall|k: Seq<char>|
                entry_texts(entries@).dom().contains(k) ==> #[trigger] entry_texts(entries@)[k]
                    == map@[k]@,
    {
        let ghost before = entries@;
        let (key, value) = map.entry(i);
        entries.push((key.to_owned(), value.clone()));
        proof {
            assert(entries@.drop_last() == before);
            assert(entry_texts(entries@) == entry_texts(before).insert(key@, value@));
            lists::lemma_take_contains(map.keys(), i as int);
        }
    }
    proof {
        assert(map.keys().take(map.keys().len() as int) == map.keys());
        assert(entry_texts(entries@) =~= text_values(map@));
    }
    entries
}

} // verus!

//! Maps from names to values.

use vstd::prelude::*;

verus! {

/// A map from names to values, kept as a list of entries.
#[derive(Debug, Clone)]
pub struct NameMap<V> {
    entries: Vec<(String, V)>,
}

/// The map that a list of entries stands for. Of two entries under one name
/// the later counts.
pub open spec fn map_of<V>(entries: Seq<(String, V)>) -> Map<Seq<char>, V>
    decreases entries.len(),
{
    if entries.len() == 0 {
        Map::empty()
    } else {
        map_of(entries.drop_last()).insert(entries.last().0@, entries.last().1)
    }
}

/// No two entries have the same name.
pub open spec fn distinct_names<V>(entries: Seq<(String, V)>) -> bool {
    forall|a: int, b: int|
        0 <= a < b < entries.len() ==> #[trigger] entries[a].0@ != #[trigger] entries[b].0@
}

proof fn lemma_map_of_absent<V>(entries: Seq<(String, V)>, name: Seq<char>)
    requires
        forall|a: int| 0 <= a < entries.len() ==> #[trigger] entries[a].0@ != name,
    ensures
        !map_of(entries).contains_key(name),
    decreases entries.len(),
{
    if entries.len() > 0 {
        let r = entries.drop_last();
        assert forall|a: int| 0 <= a < r.len() implies #[trigger] r[a].0@ != name by {
            assert(entries[a].0@ != name);
        }
        lemma_map_of_absent(r, name);
        assert(entries[entries.len() - 1].0@ != name);
    }
}

proof fn lemma_map_of_last<V>(entries: Seq<(String, V)>, i: int)
    requires
        0 <= i < entries.len(),
        forall|a: int| i < a < entries.len() ==> #[trigger] entries[a].0@ != entries[i].0@,
    ensures
        map_of(entries).contains_key(entries[i].0@),
        map_of(entries)[entries[i].0@] == entries[i].1,
    decreases entries.len(),
{
    if i < entries.len() - 1 {
        let r = entries.drop_last();
        assert forall|a: int| i < a < r.len() implies #[trigger] r[a].0@ != r[i].0@ by {
            assert(entries[a].0@ != entries[i].0@);
        }
        lemma_map_of_last(r, i);
        assert(entries[entries.len() - 1].0@ != entries[i].0@);
    }
}

proof fn lemma_map_of_update<V>(entries: Seq<(String, V)>, i: int, value: V)
    requires
        0 <= i < entries.len(),
        forall|a: int| i < a < entries.len() ==> #[trigger] entries[a].0@ != entries[i].0@,
    ensures
        map_of(entries.update(i, (entries[i].0, value))) == map_of(entries).insert(
            entries[i].0@,
            value,
        ),
    decreases entries.len(),
{
    let new = entries.update(i, (entries[i].0, value));
    let r = entries.drop_last();
    if i == entries.len() - 1 {
        assert(new.drop_last() =~= r);
        assert(map_of(new) =~= map_of(entries).insert(entries[i].0@, value));
    } else {
        assert forall|a: int| i < a < r.len() implies #[trigger] r[a].0@ != r[i].0@ by {
            assert(entries[a].0@ != entries[i].0@);
        }
        lemma_map_of_update(r, i, value);
        assert(new.drop_last() =~= r.update(i, (r[i].0, value)));
        assert(entries[entries.len() - 1].0@ != entries[i].0@);
        assert(map_of(new) =~= map_of(entries).insert(entries[i].0@, value));
    }
}

proof fn lemma_map_of_len<V>(entries: Seq<(String, V)>)
    requires
        distinct_names(entries),
    ensures
        map_of(entries).dom().finite(),
        map_of(entries).len() == entries.len(),
    decreases entries.len(),
{
    if entries.len() == 0 {
        assert(map_of(entries).dom() =~= Set::<Seq<char>>::empty());
    } else {
        let r = entries.drop_last();
        assert(distinct_names(r)) by {
            assert forall|a: int, b: int| 0 <= a < b < r.len() implies #[trigger] r[a].0@
                != #[trigger] r[b].0@ by {
                assert(entries[a].0@ != entries[b].0@);
            }
        }
        lemma_map_of_len(r);
        let name = entries.last().0@;
        assert forall|a: int| 0 <= a < r.len() implies #[trigger] r[a].0@ != name by {
            assert(entries[a].0@ != entries[entries.len() - 1].0@);
        }
        lemma_map_of_absent(r, name);
        assert(map_of(entries).dom() =~= map_of(r).dom().insert(name));
    }
}

impl<V> View for NameMap<V> {
    type V = Map<Seq<char>, V>;

    closed spec fn view(&self) -> Map<Seq<char>, V> {
        map_of(self.entries@)
    }
}

impl<V: DeepView> DeepView for NameMap<V> {
    type V = Map<Seq<char>, V::V>;

    open spec fn deep_view(&self) -> Map<Seq<char>, V::V> {
        self@.map_values(|v: V| v.deep_view())
    }
}

impl<V> NameMap<V> {
    /// The entries, oldest first.
    pub closed spec fn listing(&self) -> Seq<(String, V)> {
        self.entries@
    }

    /// No name has two entries.
    pub open spec fn well_formed(&self) -> bool {
        distinct_names(self.listing())
    }

    /// The map with no names.
    pub fn new() -> (map: Self)
        ensures
            map.well_formed(),
            map.listing() == Seq::<(String, V)>::empty(),
            map@ == Map::<Seq<char>, V>::empty(),
    {
        NameMap { entries: Vec::new() }
    }

    /// Position of the entry that counts for a name.
    fn position(&self, name: &str) -> (found: Option<usize>)
        ensures
            match found {
                Some(i) => {
                    &&& i < self.entries@.len()
                    &&& self.entries@[i as int].0@ == name@
                    &&& forall|a: int|
                        i < a < self.entries@.len() ==> #[trigger] self.entries@[a].0@ != name@
                },
                None => forall|a: int|
                    0 <= a < self.entries@.len() ==> #[trigger] self.entries@[a].0@ != name@,
            },
    {
        let wanted: String = name.to_owned();
        let mut i: usize = self.entries.len();
        while i > 0
            invariant
                i <= self.entries@.len(),
                wanted@ == name@,
                forall|a: int|
                    i <= a < self.entries@.len() ==> #[trigger] self.entries@[a].0@ != name@,
            decreases i,
        {
            i = i - 1;
            if self.entries[i].0 == wanted {
                return Some(i);
            }
        }
        None
    }

    /// The value under a name.
    pub fn get(&self, name: &str) -> (value: Option<&V>)
        ensures
            match value {
                Some(v) => self@.contains_key(name@) && *v == self@[name@],
                None => !self@.contains_key(name@),
            },
    {
        match self.position(name) {
            Some(i) => {
                proof {
                    lemma_map_of_last(self.entries@, i as int);
                }
                Some(&self.entries[i].1)
            },
            None => {
                proof {
                    lemma_map_of_absent(self.entries@, name@);
                }
                None
            },
        }
    }

    /// The value under a name, for changing it in place.
    pub fn get_mut(&mut self, name: &str) -> (value: Option<&mut V>)
        ensures
            match value {
                Some(v) => {
                    &&& old(self)@.contains_key(name@)
                    &&& *v == old(self)@[name@]
                    &&& final(self)@ == old(self)@.insert(name@, *final(v))
                },
                None => !old(self)@.contains_key(name@) && *final(self) == *old(self),
            },
            old(self).well_formed() ==> final(self).well_formed(),
    {
        match self.position(name) {
            Some(i) => {
                proof {
                    lemma_map_of_last(self.entries@, i as int);
                    assert forall|value: V|
                        map_of(
                            #[trigger] self.entries@.update(
                                i as int,
                                (self.entries@[i as int].0, value),
                            ),
                        ) == map_of(self.entries@).insert(name@, value) by {
                        lemma_map_of_update(self.entries@, i as int, value);
                    }
                }
                Some(&mut self.entries[i].1)
            },
            None => {
                proof {
                    lemma_map_of_absent(self.entries@, name@);
                }
                None
            },
        }
    }

    /// Puts a value under a name, in place of the one there, if any.
    pub fn insert(&mut self, name: String, value: V)
        ensures
            final(self)@ == old(self)@.insert(name@, value),
            old(self).well_formed() ==> final(self).well_formed(),
    {
        match self.position(name.as_str()) {
            Some(i) => {
                proof {
                    lemma_map_of_update(self.entries@, i as int, value);
                }
                self.entries[i].1 = value;
            },
            None => {
                let ghost before = self.entries@;
                self.entries.push((name, value));
                assert(self.entries@.drop_last() =~= before);
            },
        }
    }

    /// The value under a name, for changing it in place; `value` is put there
    /// first if the name is new.
    pub fn get_or_insert(&mut self, name: String, value: V) -> (slot: &mut V)
        ensures
            *slot == if old(self)@.contains_key(name@) {
                old(self)@[name@]
            } else {
                value
            },
            final(self)@ == old(self)@.insert(name@, *final(slot)),
            old(self).well_formed() ==> final(self).well_formed(),
    {
        let found: Option<usize> = self.position(name.as_str());
        let i: usize = match found {
            Some(i) => i,
            None => {
                let ghost before = self.entries@;
                proof {
                    lemma_map_of_absent(before, name@);
                }
                self.entries.push((name, value));
                assert(self.entries@.drop_last() =~= before);
                self.entries.len() - 1
            },
        };
        proof {
            lemma_map_of_last(self.entries@, i as int);
            assert forall|value: V|
                map_of(
                    #[trigger] self.entries@.update(i as int, (self.entries@[i as int].0, value)),
                ) == old(self)@.insert(name@, value) by {
                lemma_map_of_update(self.entries@, i as int, value);
                assert(self@.insert(name@, value) =~= old(self)@.insert(name@, value));
            }
        }
        &mut self.entries[i].1
    }

    /// Whether the map has no names.
    pub fn is_empty(&self) -> (empty: bool)
        ensures
            empty == (self@ == Map::<Seq<char>, V>::empty()),
    {
        proof {
            if self.entries@.len() > 0 {
                assert(self@.contains_key(self.entries@.last().0@));
            }
        }
        self.entries.len() == 0
    }

    /// The number of names.
    pub fn len(&self) -> (n: usize)
        requires
            self.well_formed(),
        ensures
            self@.dom().finite(),
            n == self@.len(),
    {
        proof {
            lemma_map_of_len(self.entries@);
        }
        self.entries.len()
    }

    /// The entries, oldest first.
    pub fn entries(&self) -> (entries: &Vec<(String, V)>)
        ensures
            entries@ == self.listing(),
            map_of(entries@) == self@,
    {
        &self.entries
    }
}

impl<V> Default for NameMap<V> {
    fn default() -> (map: Self)
        ensures
            map.well_formed(),
            map@ == Map::<Seq<char>, V>::empty(),
    {
        NameMap::new()
    }
}

/// An entry at the end counts before all others under its name and leaves other
/// names alone.
pub proof fn law_later_entry_counts<V>(entries: Seq<(String, V)>, name: String, value: V)
    ensures
        map_of(entries.push((name, value))).contains_key(name@),
        map_of(entries.push((name, value)))[name@] == value,
        forall|other: Seq<char>|
            other != name@ ==> {
                &&& #[trigger] map_of(entries.push((name, value))).contains_key(other)
                    <==> map_of(entries).contains_key(other)
                &&& map_of(entries).contains_key(other) ==> map_of(
                    entries.push((name, value)),
                )[other] == map_of(entries)[other]
            },
{
    assert(entries.push((name, value)).drop_last() =~= entries);
}

} // verus!

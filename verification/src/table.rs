//! A map from texts to values that can be walked in the order in which its
//! keys came.

use vstd::prelude::*;

use vstd::hash_map::StringHashMap;

verus! {

/// The entries of a table and where each key stands.
struct Slots<V> {
    entries: Vec<(String, V)>,
    index: StringHashMap<usize>,
}

impl<V> Slots<V> {
    spec fn wf(&self) -> bool {
        &&& forall|k: Seq<char>| #[trigger]
            self.index@.contains_key(k) ==> self.index@[k] < self.entries@.len()
                && self.entries@[self.index@[k] as int].0@ == k
        &&& forall|i: int|
            0 <= i < self.entries@.len() ==> self.index@.contains_key(
                (#[trigger] self.entries@[i]).0@,
            ) && self.index@[self.entries@[i].0@] == i
    }

    spec fn keys(&self) -> Seq<Seq<char>> {
        self.entries@.map_values(|e: (String, V)| e.0@)
    }

    spec fn map(&self) -> Map<Seq<char>, V> {
        Map::new(
            |k: Seq<char>| self.index@.contains_key(k),
            |k: Seq<char>| self.entries@[self.index@[k] as int].1,
        )
    }

    fn empty() -> (res: Slots<V>)
        ensures
            res.wf(),
            res.keys() == Seq::<Seq<char>>::empty(),
            res.map() == Map::<Seq<char>, V>::empty(),
    {
        let res = Slots { entries: Vec::new(), index: StringHashMap::new() };
        assert(res.map() =~= Map::<Seq<char>, V>::empty());
        assert(res.keys() =~= Seq::<Seq<char>>::empty());
        res
    }

    fn insert(&mut self, key: String, value: V)
        requires
            old(self).wf(),
        ensures
            final(self).wf(),
            final(self).map() == old(self).map().insert(key@, value),
            final(self).keys() == if old(self).map().contains_key(key@) {
                old(self).keys()
            } else {
                old(self).keys().push(key@)
            },
    {
        let place: Option<usize> = match self.index.get(key.as_str()) {
            Some(i) => Some(*i),
            None => None,
        };
        match place {
            Some(i) => {
                self.entries.set(i, (key, value));
                assert(self.keys() =~= old(self).keys());
            },
            None => {
                let i = self.entries.len();
                self.index.insert(key.clone(), i);
                self.entries.push((key, value));
                assert(self.keys() =~= old(self).keys().push(key@));
            },
        }
        assert(self.map() =~= old(self).map().insert(key@, value));
    }
}

/// A map from texts to values.
pub struct Table<V> {
    slots: Slots<V>,
}

impl<V> View for Table<V> {
    type V = Map<Seq<char>, V>;

    closed spec fn view(&self) -> Map<Seq<char>, V> {
        self.slots.map()
    }
}

impl<V> Table<V> {
    #[verifier::type_invariant]
    spec fn type_inv(self) -> bool {
        self.slots.wf()
    }

    /// The keys, each once, in the order in which they came.
    pub closed spec fn keys(&self) -> Seq<Seq<char>> {
        self.slots.keys()
    }

    /// The keys of the map are listed, each once.
    pub open spec fn lists_its_keys(&self) -> bool {
        &&& self.keys().no_duplicates()
        &&& forall|k: Seq<char>| #[trigger] self@.contains_key(k) == self.keys().contains(k)
    }

    proof fn lemma_lists_its_keys(&self)
        requires
            self.slots.wf(),
        ensures
            self.lists_its_keys(),
    {
        let keys = self.keys();
        assert forall|k: Seq<char>| #[trigger] self@.contains_key(k) == keys.contains(k) by {
            if self@.contains_key(k) {
                assert(keys[self.slots.index@[k] as int] == k);
            }
            if keys.contains(k) {
                let i = choose|i: int| 0 <= i < keys.len() && keys[i] == k;
                assert(self.slots.entries@[i].0@ == k);
            }
        }
        assert forall|i: int, j: int|
            0 <= i < keys.len() && 0 <= j < keys.len() && i != j implies keys[i] != keys[j] by {
            assert(self.slots.entries@[i].0@ == keys[i]);
            assert(self.slots.entries@[j].0@ == keys[j]);
        }
    }

    /// An empty table.
    pub fn new() -> (res: Table<V>)
        ensures
            res@ == Map::<Seq<char>, V>::empty(),
            res.keys() == Seq::<Seq<char>>::empty(),
            res.lists_its_keys(),
    {
        Table { slots: Slots::empty() }
    }

    /// How many keys there are.
    pub fn len(&self) -> (res: usize)
        ensures
            res == self.keys().len(),
            res == self@.len(),
            self@.dom().finite(),
            self.lists_its_keys(),
    {
        proof {
            use_type_invariant(self);
            self.lemma_lists_its_keys();
            let keys = self.keys();
            assert(self@.dom() =~= keys.to_set());
            keys.unique_seq_to_set();
        }
        self.slots.entries.len()
    }

    /// Whether there are no keys.
    pub fn is_empty(&self) -> (res: bool)
        ensures
            res == (self@ == Map::<Seq<char>, V>::empty()),
            res == (self.keys().len() == 0),
    {
        let n = self.len();
        proof {
            if n == 0 {
                assert(self@ =~= Map::<Seq<char>, V>::empty());
            } else {
                assert(self.keys().contains(self.keys()[0]));
                assert(self@.contains_key(self.keys()[0]));
            }
        }
        n == 0
    }

    /// Whether there is a value for `key`.
    pub fn contains_key(&self, key: &str) -> (res: bool)
        ensures
            res == self@.contains_key(key@),
    {
        self.slots.index.contains_key(key)
    }

    /// The value for `key`.
    pub fn get(&self, key: &str) -> (res: Option<&V>)
        ensures
            match res {
                Some(v) => self@.contains_key(key@) && *v == self@[key@],
                None => !self@.contains_key(key@),
            },
    {
        proof {
            use_type_invariant(self);
        }
        match self.slots.index.get(key) {
            Some(i) => Some(&self.slots.entries[*i].1),
            None => None,
        }
    }

    /// The key at place `i`.
    pub fn key_at(&self, i: usize) -> (res: &String)
        requires
            i < self.keys().len(),
        ensures
            res@ == self.keys()[i as int],
            self@.contains_key(res@),
    {
        proof {
            use_type_invariant(self);
        }
        assert(self.slots.entries@[i as int].0@ == self.keys()[i as int]);
        &self.slots.entries[i].0
    }

    /// The value of the key at place `i`.
    pub fn value_at(&self, i: usize) -> (res: &V)
        requires
            i < self.keys().len(),
        ensures
            *res == self@[self.keys()[i as int]],
            self@.contains_key(self.keys()[i as int]),
    {
        proof {
            use_type_invariant(self);
        }
        assert(self.slots.entries@[i as int].0@ == self.keys()[i as int]);
        &self.slots.entries[i].1
    }

    /// Gives `key` the value `value`.
    pub fn insert(&mut self, key: String, value: V)
        ensures
            final(self)@ == old(self)@.insert(key@, value),
            final(self).keys() == if old(self)@.contains_key(key@) {
                old(self).keys()
            } else {
                old(self).keys().push(key@)
            },
            final(self).lists_its_keys(),
    {
        proof {
            use_type_invariant(&*self);
        }
        let mut slots = Slots::empty();
        std::mem::swap(&mut slots, &mut self.slots);
        slots.insert(key, value);
        self.slots = slots;
        proof {
            self.lemma_lists_its_keys();
        }
    }
}

/// A value that was put is got by its key; the values of the other keys stay.
pub proof fn put_values_are_got<V>(
    table: &mut Table<V>,
    key: String,
    value: V,
    before: &Table<V>,
    after: &Table<V>,
    k: &str,
    was: Option<&V>,
    is: Option<&V>,
    present: bool,
)
    requires
        call_ensures(Table::<V>::insert, (table, key, value), ()),
        before@ == old(table)@,
        after@ == final(table)@,
        call_ensures(Table::<V>::get, (before, k), was),
        call_ensures(Table::<V>::get, (after, k), is),
        call_ensures(Table::<V>::contains_key, (after, k), present),
    ensures
        k@ == key@ ==> (is matches Some(v) && *v == value),
        k@ != key@ ==> is is Some == was is Some,
        k@ != key@ ==> (was matches Some(v) ==> (is matches Some(w) && *v == *w)),
        present == is is Some,
{
}

/// A new table holds nothing.
pub proof fn new_tables_are_empty<V>(
    table: Table<V>,
    k: &str,
    res: Option<&V>,
    n: usize,
    empty: bool,
)
    requires
        call_ensures(Table::<V>::new, (), table),
        call_ensures(Table::<V>::get, (&table, k), res),
        call_ensures(Table::<V>::len, (&table,), n),
        call_ensures(Table::<V>::is_empty, (&table,), empty),
    ensures
        res is None,
        n == 0,
        empty,
{
}

/// A key that is put anew is listed behind the others; one that is there keeps
/// its place.
pub proof fn keys_are_listed_as_they_come<V>(
    table: &mut Table<V>,
    key: String,
    value: V,
    before: &Table<V>,
    after: &Table<V>,
    n: usize,
    m: usize,
    i: usize,
    was: &String,
    is: &String,
)
    requires
        call_ensures(Table::<V>::insert, (table, key, value), ()),
        before@ == old(table)@ && before.keys() == old(table).keys(),
        after@ == final(table)@ && after.keys() == final(table).keys(),
        call_ensures(Table::<V>::len, (before,), n),
        call_ensures(Table::<V>::len, (after,), m),
        i < m,
        i < n ==> call_ensures(Table::<V>::key_at, (before, i), was),
        call_ensures(Table::<V>::key_at, (after, i), is),
    ensures
        m == if before@.contains_key(key@) {
            n as int
        } else {
            n + 1
        },
        i < n ==> is@ == was@,
        i == n ==> is@ == key@,
{
}

/// The value at a place is that of the key at this place.
pub proof fn values_stand_with_their_keys<V>(
    table: &Table<V>,
    i: usize,
    key: &String,
    value: &V,
    k: &str,
    got: Option<&V>,
)
    requires
        i < table.keys().len(),
        call_ensures(Table::<V>::key_at, (table, i), key),
        call_ensures(Table::<V>::value_at, (table, i), value),
        k@ == key@,
        call_ensures(Table::<V>::get, (table, k), got),
    ensures
        got matches Some(v) && *v == *value,
{
}

} // verus!

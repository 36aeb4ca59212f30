//! A table from user ids to numbers that can be looked up by id and walked by position.
use vstd::hash_map::StringHashMap;
use vstd::prelude::*;

verus! {

broadcast use vstd::hash_map::group_hash_map_axioms;

/// A map from user ids to `u32`, kept as a dense list of entries beside an index of positions.
pub struct IdTable {
    entries: Vec<(String, u32)>,
    positions: StringHashMap<usize>,
}

/// The ids of `entries`, in order.
spec fn entry_ids(entries: Seq<(String, u32)>) -> Seq<Seq<char>> {
    entries.map_values(|e: (String, u32)| e.0@)
}

/// `positions` sends each id of `entries` to the place where it stands, and nothing else.
spec fn aligned(entries: Seq<(String, u32)>, positions: Map<Seq<char>, usize>) -> bool {
    &&& forall|i: int|
        #![trigger entries[i]]
        0 <= i < entries.len() ==> positions.contains_key(entries[i].0@)
            && positions[entries[i].0@] == i
    &&& forall|id: Seq<char>| #[trigger]
        positions.contains_key(id) ==> positions[id] < entries.len()
            && entries[positions[id] as int].0@ == id
}

impl View for IdTable {
    type V = Map<Seq<char>, u32>;

    closed spec fn view(&self) -> Map<Seq<char>, u32> {
        Map::new(
            |id: Seq<char>| self.positions@.contains_key(id),
            |id: Seq<char>| self.entries@[self.positions@[id] as int].1,
        )
    }
}

proof fn lemma_count(entries: Seq<(String, u32)>, positions: Map<Seq<char>, usize>)
    requires
        aligned(entries, positions),
    ensures
        positions.dom() == entry_ids(entries).to_set(),
        positions.dom().finite(),
        positions.dom().len() == entries.len(),
{
    let ids = entry_ids(entries);
    assert(ids.no_duplicates()) by {
        assert forall|i: int, j: int|
            0 <= i < ids.len() && 0 <= j < ids.len() && i != j implies ids[i] != ids[j] by {
            assert(positions[entries[i].0@] == i && positions[entries[j].0@] == j);
        }
    }
    ids.unique_seq_to_set();
    assert(positions.dom() =~= ids.to_set()) by {
        assert forall|id: Seq<char>| positions.contains_key(id) implies ids.contains(id) by {
            assert(ids[positions[id] as int] == id);
        }
        assert forall|id: Seq<char>| ids.contains(id) implies positions.contains_key(id) by {
            let i = choose|i: int| 0 <= i < ids.len() && ids[i] == id;
            assert(entries[i].0@ == id);
        }
    }
}

impl IdTable {
    #[verifier::type_invariant]
    spec fn wf(self) -> bool {
        aligned(self.entries@, self.positions@)
    }

    /// The entries in the order in which a walk over the table meets them.
    pub closed spec fn walk(&self) -> Seq<(Seq<char>, u32)> {
        self.entries@.map_values(|e: (String, u32)| (e.0@, e.1))
    }

    /// The walk meets each id of the table once, with its value, and no other id.
    pub open spec fn walk_is_complete(&self) -> bool {
        &&& forall|i: int|
            #![trigger self.walk()[i]]
            0 <= i < self.walk().len() ==> self@.contains_key(self.walk()[i].0)
                && self@[self.walk()[i].0] == self.walk()[i].1
        &&& forall|i: int, j: int|
            #![trigger self.walk()[i], self.walk()[j]]
            0 <= i < j < self.walk().len() ==> self.walk()[i].0 != self.walk()[j].0
        &&& forall|id: Seq<char>| #[trigger]
            self@.contains_key(id) ==> exists|i: int|
                0 <= i < self.walk().len() && (#[trigger] self.walk()[i]).0 == id
    }

    /// An empty table.
    pub fn new() -> (table: IdTable)
        ensures
            table@ == Map::<Seq<char>, u32>::empty(),
    {
        let table = IdTable { entries: Vec::new(), positions: StringHashMap::new() };
        assert(table@ =~= Map::<Seq<char>, u32>::empty());
        table
    }

    /// The number of entries.
    pub fn len(&self) -> (n: usize)
        ensures
            n == self@.len(),
            n == self.walk().len(),
            self.walk_is_complete(),
            self@.dom().finite(),
    {
        proof {
            use_type_invariant(self);
            lemma_count(self.entries@, self.positions@);
            assert(self@.dom() =~= self.positions@.dom());
            let walk = self.walk();
            assert forall|i: int|
                #![trigger self.walk()[i]]
                0 <= i < walk.len() implies self@.contains_key(self.walk()[i].0)
                && self@[self.walk()[i].0] == self.walk()[i].1 by {
                assert(self.entries@[i].0@ == walk[i].0);
            }
            assert forall|i: int, j: int|
                #![trigger self.walk()[i], self.walk()[j]]
                0 <= i < j < walk.len() implies self.walk()[i].0 != self.walk()[j].0 by {
                assert(self.entries@[i].0@ == walk[i].0);
                assert(self.entries@[j].0@ == walk[j].0);
            }
            assert forall|id: Seq<char>| #[trigger] self@.contains_key(id) implies exists|i: int|
                0 <= i < self.walk().len() && (#[trigger] self.walk()[i]).0 == id by {
                let i = self.positions@[id] as int;
                assert(self.walk()[i].0 == id);
            }
        }
        self.entries.len()
    }

    /// Whether the table has no entry.
    pub fn is_empty(&self) -> (empty: bool)
        ensures
            empty == (self@.len() == 0),
            empty == self@.dom().is_empty(),
    {
        proof {
            use_type_invariant(self);
            lemma_count(self.entries@, self.positions@);
            assert(self@.dom() =~= self.positions@.dom());
            if self.entries@.len() > 0 {
                assert(self@.dom().contains(self.entries@[0].0@));
            }
        }
        self.entries.len() == 0
    }

    /// The value of `id`, if it has one.
    pub fn get(&self, id: &str) -> (value: Option<u32>)
        ensures
            value == (if self@.contains_key(id@) { Some(self@[id@]) } else { None::<u32> }),
    {
        proof {
            use_type_invariant(self);
        }
        match self.positions.get(id) {
            Some(position) => Some(self.entries[*position].1),
            None => None,
        }
    }

    /// Whether `id` has a value.
    pub fn contains_key(&self, id: &str) -> (found: bool)
        ensures
            found == self@.contains_key(id@),
    {
        self.positions.contains_key(id)
    }

    /// The entry at `position` of a walk over the table.
    pub fn entry(&self, position: usize) -> (entry: (&String, u32))
        requires
            position < self.walk().len(),
        ensures
            (entry.0@, entry.1) == self.walk()[position as int],
            self@.contains_key(entry.0@),
            self@[entry.0@] == entry.1,
    {
        proof {
            use_type_invariant(self);
            assert(self.entries@[position as int].0@ == self.walk()[position as int].0);
        }
        (&self.entries[position].0, self.entries[position].1)
    }

    /// Gives `id` the value `value`, in place of any value it had.
    pub fn insert(&mut self, id: String, value: u32)
        ensures
            final(self)@ == old(self)@.insert(id@, value),
    {
        proof {
            use_type_invariant(&*self);
        }
        let mut table = IdTable::new();
        std::mem::swap(self, &mut table);
        let IdTable { mut entries, mut positions } = table;
        let known: Option<usize> = match positions.get(id.as_str()) {
            Some(position) => Some(*position),
            None => None,
        };
        match known {
            Some(position) => {
                entries.set(position, (id, value));
            },
            None => {
                positions.insert(id.clone(), entries.len());
                entries.push((id, value));
            },
        }
        *self = IdTable { entries, positions };
        assert(self@ =~= old(self)@.insert(id@, value));
    }

    /// Takes `id` and its value out of the table, if it is there.
    pub fn remove(&mut self, id: &str)
        ensures
            final(self)@ == old(self)@.remove(id@),
    {
        proof {
            use_type_invariant(&*self);
        }
        let mut table = IdTable::new();
        std::mem::swap(self, &mut table);
        let IdTable { mut entries, mut positions } = table;
        let known: Option<usize> = match positions.get(id) {
            Some(position) => Some(*position),
            None => None,
        };
        match known {
            Some(position) => {
                positions.remove(id);
                entries.swap_remove(position);
                if position < entries.len() {
                    positions.insert(entries[position].0.clone(), position);
                }
            },
            None => {},
        }
        *self = IdTable { entries, positions };
        assert(self@ =~= old(self)@.remove(id@));
    }
}

} // verus!

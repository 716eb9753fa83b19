//! The in-memory index: for each key that is present, where in the log its
//! latest record lies.

use vstd::hash_map::StringHashMap;
use vstd::prelude::*;

verus! {

/// Where a record lies in the log.
#[derive(Clone, Copy, Debug, PartialEq, Eq, Structural)]
pub struct CommandPos {
    /// The offset of the record's first byte.
    pub pos: u64,
    /// The record's length in bytes.
    pub len: u64,
}

/// The entries of an index as mathematics: keys with their places, in the
/// order in which the index holds them.
pub type Entries = Seq<(Seq<char>, CommandPos)>;

/// No key occurs twice.
pub open spec fn distinct_keys(entries: Entries) -> bool {
    forall|i: int, j: int|
        0 <= i < j < entries.len() ==> (#[trigger] entries[i]).0 != (#[trigger] entries[j]).0
}

/// The position of the first entry from `i` on that has the key.
pub open spec fn find_from(entries: Entries, key: Seq<char>, i: int) -> Option<int>
    decreases entries.len() - i,
{
    if 0 <= i < entries.len() {
        if entries[i].0 == key {
            Some(i)
        } else {
            find_from(entries, key, i + 1)
        }
    } else {
        None
    }
}

/// The place that the entries give the key.
pub open spec fn place_of(entries: Entries, key: Seq<char>) -> Option<CommandPos> {
    match find_from(entries, key, 0) {
        Some(i) => Some(entries[i].1),
        None => None,
    }
}

/// The entries after the key has been given a place: in the key's entry if
/// it has one, else in a new entry at the end.
pub open spec fn inserted(entries: Entries, key: Seq<char>, at: CommandPos) -> Entries {
    match find_from(entries, key, 0) {
        Some(i) => entries.update(i, (key, at)),
        None => entries.push((key, at)),
    }
}

/// The entries after the key's entry, if it has one, has been taken out:
/// the last entry takes its place.
pub open spec fn removed(entries: Entries, key: Seq<char>) -> Entries {
    match find_from(entries, key, 0) {
        Some(i) => entries.update(i, entries.last()).drop_last(),
        None => entries,
    }
}

/// The position that a table of positions gives a key.
pub open spec fn slot_of(slots: Map<Seq<char>, usize>, key: Seq<char>) -> Option<int> {
    if slots.contains_key(key) {
        Some(slots[key] as int)
    } else {
        None
    }
}

/// The table gives each key the position of its entry.
pub open spec fn slots_match(slots: Map<Seq<char>, usize>, entries: Entries) -> bool {
    forall|key: Seq<char>| #[trigger] find_from(entries, key, 0) == slot_of(slots, key)
}

/// The entries as a map from keys to places.
pub open spec fn as_map(entries: Entries) -> Map<Seq<char>, CommandPos> {
    Map::new(
        |key: Seq<char>| place_of(entries, key) is Some,
        |key: Seq<char>| place_of(entries, key).unwrap(),
    )
}

/// The lengths of all the records that the entries point at, added up.
pub open spec fn total_len(entries: Entries) -> nat
    decreases entries.len(),
{
    if entries.len() == 0 {
        0
    } else {
        total_len(entries.drop_last()) + entries.last().1.len as nat
    }
}

/// What `find_from` finds is the first entry with the key.
pub proof fn lemma_find_from(entries: Entries, key: Seq<char>, i: int)
    requires
        0 <= i,
    ensures
        match find_from(entries, key, i) {
            Some(at) => {
                &&& i <= at < entries.len()
                &&& entries[at].0 == key
                &&& forall|j: int| i <= j < at ==> (#[trigger] entries[j]).0 != key
            },
            None => forall|j: int| i <= j < entries.len() ==> (#[trigger] entries[j]).0 != key,
        },
    decreases entries.len() - i,
{
    if i < entries.len() && entries[i].0 != key {
        lemma_find_from(entries, key, i + 1);
    }
}

/// Among distinct keys, each entry is the one found for its key.
pub proof fn lemma_place_of_entry(entries: Entries, i: int)
    requires
        distinct_keys(entries),
        0 <= i < entries.len(),
    ensures
        find_from(entries, entries[i].0, 0) == Some(i),
        place_of(entries, entries[i].0) == Some(entries[i].1),
{
    lemma_find_from(entries, entries[i].0, 0);
}

/// Adding an entry adds its length.
pub proof fn lemma_total_len_push(entries: Entries, entry: (Seq<char>, CommandPos))
    ensures
        total_len(entries.push(entry)) == total_len(entries) + entry.1.len,
{
    assert(entries.push(entry).drop_last() == entries);
}

/// Replacing an entry replaces its length.
pub proof fn lemma_total_len_update(entries: Entries, i: int, entry: (Seq<char>, CommandPos))
    requires
        0 <= i < entries.len(),
    ensures
        total_len(entries.update(i, entry)) == total_len(entries) - entries[i].1.len + entry.1.len,
    decreases entries.len(),
{
    if i == entries.len() - 1 {
        assert(entries.update(i, entry).drop_last() == entries.drop_last());
    } else {
        assert(entries.update(i, entry).drop_last() == entries.drop_last().update(i, entry));
        lemma_total_len_update(entries.drop_last(), i, entry);
    }
}

/// Taking an entry out, the last entry taking its place, takes out its
/// length.
pub proof fn lemma_total_len_remove(entries: Entries, i: int)
    requires
        0 <= i < entries.len(),
    ensures
        total_len(entries.update(i, entries.last()).drop_last()) == total_len(entries)
            - entries[i].1.len,
{
    lemma_total_len_update(entries, i, entries.last());
}

/// No single record is longer than all of them together.
pub proof fn lemma_total_len_bounds(entries: Entries, i: int)
    requires
        0 <= i < entries.len(),
    ensures
        entries[i].1.len <= total_len(entries),
    decreases entries.len(),
{
    if i < entries.len() - 1 {
        lemma_total_len_bounds(entries.drop_last(), i);
    }
}

/// A new key at the end is a new key in the map.
pub proof fn lemma_as_map_push(entries: Entries, key: Seq<char>, at: CommandPos)
    requires
        distinct_keys(entries),
        place_of(entries, key) is None,
    ensures
        distinct_keys(entries.push((key, at))),
        as_map(entries.push((key, at))) == as_map(entries).insert(key, at),
        forall|k: Seq<char>| #[trigger]
            find_from(entries.push((key, at)), k, 0) == (if k == key {
                Some(entries.len() as int)
            } else {
                find_from(entries, k, 0)
            }),
{
    let after = entries.push((key, at));
    lemma_find_from(entries, key, 0);
    assert forall|k: Seq<char>| #[trigger] find_from(after, k, 0) == (if k == key {
        Some(entries.len() as int)
    } else {
        find_from(entries, k, 0)
    }) by {
        lemma_find_from(entries, k, 0);
        lemma_find_from(after, k, 0);
        assert(after[entries.len() as int] == (key, at));
        if let Some(j) = find_from(entries, k, 0) {
            assert(after[j] == entries[j]);
        }
        if let Some(f) = find_from(after, k, 0) {
            if f < entries.len() {
                assert(after[f] == entries[f]);
            }
        }
    }
    assert forall|k: Seq<char>| #[trigger] place_of(after, k) == (if k == key {
        Some(at)
    } else {
        place_of(entries, k)
    }) by {
        assert(after[entries.len() as int] == (key, at));
        if let Some(j) = find_from(entries, k, 0) {
            lemma_find_from(entries, k, 0);
            assert(after[j] == entries[j]);
        }
    }
    assert(as_map(after) =~= as_map(entries).insert(key, at));
}

/// A new place for a key that is there is a new place in the map.
pub proof fn lemma_as_map_update(entries: Entries, i: int, at: CommandPos)
    requires
        distinct_keys(entries),
        0 <= i < entries.len(),
    ensures
        distinct_keys(entries.update(i, (entries[i].0, at))),
        as_map(entries.update(i, (entries[i].0, at))) == as_map(entries).insert(entries[i].0, at),
        forall|k: Seq<char>| #[trigger]
            find_from(entries.update(i, (entries[i].0, at)), k, 0) == find_from(entries, k, 0),
{
    let key = entries[i].0;
    let after = entries.update(i, (key, at));
    assert forall|k: Seq<char>| #[trigger] find_from(after, k, 0) == find_from(entries, k, 0) by {
        lemma_find_from(entries, k, 0);
        lemma_find_from(after, k, 0);
        if let Some(j) = find_from(entries, k, 0) {
            assert(after[j].0 == entries[j].0);
        }
        if let Some(f) = find_from(after, k, 0) {
            assert(after[f].0 == entries[f].0);
        }
    }
    assert forall|k: Seq<char>| #[trigger] place_of(after, k) == (if k == key {
        Some(at)
    } else {
        place_of(entries, k)
    }) by {
        lemma_find_from(entries, k, 0);
    }
    assert(as_map(after) =~= as_map(entries).insert(key, at));
}

/// Taking an entry out, the last entry taking its place, takes its key out
/// of the map.
pub proof fn lemma_as_map_remove(entries: Entries, i: int)
    requires
        distinct_keys(entries),
        0 <= i < entries.len(),
    ensures
        distinct_keys(entries.update(i, entries.last()).drop_last()),
        as_map(entries.update(i, entries.last()).drop_last()) == as_map(entries).remove(
            entries[i].0,
        ),
        forall|k: Seq<char>| #[trigger]
            find_from(entries.update(i, entries.last()).drop_last(), k, 0) == (if k
                == entries[i].0 {
                None
            } else if k == entries.last().0 {
                Some(i)
            } else {
                find_from(entries, k, 0)
            }),
{
    let key = entries[i].0;
    let last = entries.len() - 1;
    let after = entries.update(i, entries.last()).drop_last();
    assert forall|a: int, b: int| 0 <= a < b < after.len() implies (#[trigger] after[a]).0 != (
    #[trigger] after[b]).0 by {
        let a0 = if a == i { last } else { a };
        let b0 = if b == i { last } else { b };
        assert(after[a] == entries[a0] && after[b] == entries[b0]);
    }
    assert forall|k: Seq<char>| #[trigger] find_from(after, k, 0) == (if k == key {
        None
    } else if k == entries.last().0 {
        Some(i)
    } else {
        find_from(entries, k, 0)
    }) by {
        lemma_find_from(entries, k, 0);
        lemma_find_from(after, k, 0);
        if let Some(f) = find_from(after, k, 0) {
            let f0 = if f == i { last } else { f };
            assert(after[f] == entries[f0]);
        }
        if let Some(j) = find_from(entries, k, 0) {
            if j != i {
                let j1 = if j == last { i } else { j };
                assert(after[j1] == entries[j]);
            }
        }
    }
    assert(as_map(after) =~= as_map(entries).remove(key)) by {
        assert forall|k: Seq<char>| #[trigger] place_of(after, k) == (if k == key {
            None
        } else {
            place_of(entries, k)
        }) by {
            lemma_find_from(entries, k, 0);
            if k != key && k == entries.last().0 {
                lemma_place_of_entry(entries, last);
            }
        }
    }
}

struct IndexEntry {
    key: String,
    at: CommandPos,
}

/// A map from the keys that are present to the places of their records.
///
/// The entries lie in a vector, so that they can be gone through in order; a
/// hash table from each key to the position of its entry finds them.
pub struct Index {
    entries: Vec<IndexEntry>,
    slots: StringHashMap<usize>,
}

impl View for Index {
    type V = Map<Seq<char>, CommandPos>;

    open spec fn view(&self) -> Map<Seq<char>, CommandPos> {
        as_map(self.entries())
    }
}

impl Index {
    /// The entries, in the order in which the index holds them.
    pub closed spec fn entries(&self) -> Entries {
        Seq::new(self.entries.len() as nat, |i: int| (self.entries[i].key@, self.entries[i].at))
    }

    /// The hash table gives each key the position of its entry.
    pub closed spec fn slots_sound(&self) -> bool {
        slots_match(self.slots@, self.entries())
    }

    /// No key occurs twice, and the hash table finds each key's entry.
    pub open spec fn wf(&self) -> bool {
        distinct_keys(self.entries()) && self.slots_sound()
    }

    /// The lengths of all the records that the index points at, added up.
    pub open spec fn live_bytes(&self) -> nat {
        total_len(self.entries())
    }

    /// An index without keys.
    pub fn new() -> (index: Index)
        ensures
            index.wf(),
            index.entries() == Entries::empty(),
            index@ == Map::<Seq<char>, CommandPos>::empty(),
            index.live_bytes() == 0,
    {
        let index = Index { entries: Vec::new(), slots: StringHashMap::new() };
        assert(index.entries() =~= Entries::empty());
        assert(index@ =~= Map::<Seq<char>, CommandPos>::empty());
        index
    }

    /// The number of keys.
    pub fn len(&self) -> (n: usize)
        ensures
            n == self.entries().len(),
    {
        self.entries.len()
    }

    /// The key of entry `i`.
    pub fn key_at(&self, i: usize) -> (key: &String)
        requires
            i < self.entries().len(),
        ensures
            key@ == self.entries()[i as int].0,
    {
        &self.entries[i].key
    }

    /// The place of entry `i`.
    pub fn place_at(&self, i: usize) -> (at: CommandPos)
        requires
            i < self.entries().len(),
        ensures
            at == self.entries()[i as int].1,
    {
        self.entries[i].at
    }

    fn position(&self, key: &String) -> (found: Option<usize>)
        requires
            self.wf(),
        ensures
            match found {
                Some(i) => i < self.entries.len() && find_from(self.entries(), key@, 0) == Some(
                    i as int,
                ),
                None => find_from(self.entries(), key@, 0) is None,
            },
    {
        proof {
            lemma_find_from(self.entries(), key@, 0);
            assert(find_from(self.entries(), key@, 0) == slot_of(self.slots@, key@));
        }
        match self.slots.get(key.as_str()) {
            Some(i) => Some(*i),
            None => None,
        }
    }

    /// The place of the key's record, if the key is present.
    pub fn get(&self, key: &String) -> (at: Option<CommandPos>)
        requires
            self.wf(),
        ensures
            at == place_of(self.entries(), key@),
            at == if self@.contains_key(key@) {
                Some(self@[key@])
            } else {
                None
            },
    {
        match self.position(key) {
            Some(i) => Some(self.entries[i].at),
            None => None,
        }
    }

    /// Gives the key a place, and returns the place it had.
    pub fn insert(&mut self, key: String, at: CommandPos) -> (before: Option<CommandPos>)
        requires
            old(self).wf(),
        ensures
            final(self).wf(),
            final(self)@ == old(self)@.insert(key@, at),
            before == place_of(old(self).entries(), key@),
            final(self).live_bytes() == old(self).live_bytes() + at.len - (match before {
                Some(b) => b.len as int,
                None => 0,
            }),
            before is Some ==> before.unwrap().len <= old(self).live_bytes(),
            final(self).entries() == inserted(old(self).entries(), key@, at),
    {
        match self.position(&key) {
            Some(i) => {
                let before = self.entries[i].at;
                proof {
                    lemma_find_from(self.entries(), key@, 0);
                    lemma_as_map_update(self.entries(), i as int, at);
                    lemma_total_len_update(self.entries(), i as int, (key@, at));
                    lemma_total_len_bounds(self.entries(), i as int);
                }
                self.entries.set(i, IndexEntry { key, at });
                assert(self.entries() =~= old(self).entries().update(i as int, (key@, at)));
                Some(before)
            },
            None => {
                self.push_fresh(key, at);
                None
            },
        }
    }

    /// Gives a place to a key that is not present, without looking for it.
    pub(crate) fn push_fresh(&mut self, key: String, at: CommandPos)
        requires
            old(self).wf(),
            place_of(old(self).entries(), key@) is None,
        ensures
            final(self).wf(),
            final(self)@ == old(self)@.insert(key@, at),
            final(self).entries() == old(self).entries().push((key@, at)),
            final(self).live_bytes() == old(self).live_bytes() + at.len,
    {
        proof {
            lemma_as_map_push(self.entries(), key@, at);
            lemma_total_len_push(self.entries(), (key@, at));
        }
        let slot = self.entries.len();
        self.slots.insert(key.clone(), slot);
        self.entries.push(IndexEntry { key, at });
        assert(self.entries() =~= old(self).entries().push((key@, at)));
    }

    /// Takes the key out, and returns the place it had.
    pub fn remove(&mut self, key: &String) -> (before: Option<CommandPos>)
        requires
            old(self).wf(),
        ensures
            final(self).wf(),
            final(self)@ == old(self)@.remove(key@),
            before == place_of(old(self).entries(), key@),
            final(self).live_bytes() == old(self).live_bytes() - (match before {
                Some(b) => b.len as int,
                None => 0,
            }),
            final(self).entries() == removed(old(self).entries(), key@),
    {
        match self.position(key) {
            Some(i) => {
                proof {
                    lemma_find_from(self.entries(), key@, 0);
                    lemma_as_map_remove(self.entries(), i as int);
                    lemma_total_len_remove(self.entries(), i as int);
                }
                let entry = self.entries.swap_remove(i);
                assert(self.entries() =~= old(self).entries().update(
                    i as int,
                    old(self).entries().last(),
                ).drop_last());
                self.slots.remove(key.as_str());
                if i < self.entries.len() {
                    let moved = self.entries[i].key.clone();
                    self.slots.insert(moved, i);
                }
                Some(entry.at)
            },
            None => {
                assert(self@ =~= old(self)@.remove(key@));
                None
            },
        }
    }
}

} // verus!

//! An in-memory table from byte-string keys to byte-string values.

use vstd::prelude::*;

verus! {

/// One key with the value stored under it.
struct Entry {
    key: Vec<u8>,
    value: Vec<u8>,
}

/// A table that holds at most one value per key.
pub struct Table {
    entries: Vec<Entry>,
}

/// No two of `entries` have the same key.
spec fn keys_distinct(entries: Seq<Entry>) -> bool {
    forall|i: int, j: int|
        0 <= i < j < entries.len() ==> (#[trigger] entries[i]).key@ != (#[trigger] entries[j]).key@
}

/// `entries[i]` holds `key`.
spec fn holds_at(entries: Seq<Entry>, key: Seq<u8>, i: int) -> bool {
    0 <= i < entries.len() && entries[i].key@ == key
}

/// The map that `entries` spell out.
spec fn entries_map(entries: Seq<Entry>) -> Map<Seq<u8>, Seq<u8>> {
    Map::new(
        |key: Seq<u8>| exists|i: int| holds_at(entries, key, i),
        |key: Seq<u8>| entries[choose|i: int| holds_at(entries, key, i)].value@,
    )
}

/// Whether two byte strings are equal.
fn bytes_equal(a: &[u8], b: &[u8]) -> (equal: bool)
    ensures
        equal == (a@ == b@),
{
    if a.len() != b.len() {
        return false;
    }
    let mut i: usize = 0;
    while i < a.len()
        invariant
            i <= a.len(),
            a.len() == b.len(),
            a@.subrange(0, i as int) == b@.subrange(0, i as int),
        decreases a.len() - i,
    {
        if a[i] != b[i] {
            return false;
        }
        i = i + 1;
    }
    assert(a@ =~= a@.subrange(0, i as int));
    assert(b@ =~= b@.subrange(0, i as int));
    true
}

impl View for Table {
    type V = Map<Seq<u8>, Seq<u8>>;

    /// The table as a map from key bytes to value bytes.
    closed spec fn view(&self) -> Map<Seq<u8>, Seq<u8>> {
        entries_map(self.entries@)
    }
}

impl Table {
    #[verifier::type_invariant]
    spec fn well_formed(self) -> bool {
        keys_distinct(self.entries@)
    }

    /// An empty table.
    pub fn new() -> (table: Self)
        ensures
            table@ == Map::<Seq<u8>, Seq<u8>>::empty(),
    {
        Table { entries: Vec::new() }
    }

    /// The position of `key` among the entries, if it is there.
    fn position(&self, key: &[u8]) -> (at: Option<usize>)
        ensures
            match at {
                Some(i) => holds_at(self.entries@, key@, i as int),
                None => forall|i: int| !holds_at(self.entries@, key@, i),
            },
    {
        let mut i: usize = 0;
        while i < self.entries.len()
            invariant
                i <= self.entries.len(),
                forall|j: int| 0 <= j < i ==> !holds_at(self.entries@, key@, j),
            decreases self.entries.len() - i,
        {
            if bytes_equal(self.entries[i].key.as_slice(), key) {
                return Some(i);
            }
            i = i + 1;
        }
        None
    }

    /// The value stored under `key`, if there is one.
    pub fn get(&self, key: &[u8]) -> (found: Option<&Vec<u8>>)
        ensures
            match found {
                Some(value) => self@.dom().contains(key@) && value@ == self@[key@],
                None => !self@.dom().contains(key@),
            },
    {
        proof {
            use_type_invariant(self);
        }
        match self.position(key) {
            Some(i) => {
                proof {
                    lemma_entry_is_mapped(self.entries@, key@, i as int);
                }
                Some(&self.entries[i].value)
            },
            None => None,
        }
    }

    /// Stores `value` under `key`, in place of any value stored there before.
    pub fn insert(&mut self, key: Vec<u8>, value: Vec<u8>)
        ensures
            final(self)@ == old(self)@.insert(key@, value@),
    {
        proof {
            use_type_invariant(&*self);
        }
        let at: Option<usize> = self.position(key.as_slice());
        // The entries change outside the table, which has to be well formed
        // at every point where it can be seen.
        let mut entries: Vec<Entry> = Vec::new();
        core::mem::swap(&mut entries, &mut self.entries);
        let entry = Entry { key, value };
        match at {
            Some(i) => {
                proof {
                    lemma_replace_entry(entries@, i as int, entry);
                }
                entries.set(i, entry);
            },
            None => {
                proof {
                    lemma_append_entry(entries@, entry);
                }
                entries.push(entry);
            },
        }
        self.entries = entries;
    }
}

/// With distinct keys, the entry that holds a key gives the map's value
/// for it.
proof fn lemma_entry_is_mapped(entries: Seq<Entry>, key: Seq<u8>, i: int)
    requires
        keys_distinct(entries),
        holds_at(entries, key, i),
    ensures
        entries_map(entries).dom().contains(key),
        entries_map(entries)[key] == entries[i].value@,
{
    let chosen: int = choose|j: int| holds_at(entries, key, j);
    assert(chosen == i);
}

/// Putting an entry for `key` in the place of the one that holds `key`
/// inserts into the map and keeps the keys distinct.
proof fn lemma_replace_entry(entries: Seq<Entry>, i: int, entry: Entry)
    requires
        keys_distinct(entries),
        holds_at(entries, entry.key@, i),
    ensures
        keys_distinct(entries.update(i, entry)),
        entries_map(entries.update(i, entry)) == entries_map(entries).insert(
            entry.key@,
            entry.value@,
        ),
{
    let after: Seq<Entry> = entries.update(i, entry);
    let target: Map<Seq<u8>, Seq<u8>> = entries_map(entries).insert(entry.key@, entry.value@);
    // Every position holds the key that it held before.
    assert forall|key: Seq<u8>, j: int| holds_at(after, key, j) == holds_at(entries, key, j) by {}
    assert(keys_distinct(after));
    assert forall|key: Seq<u8>| #[trigger]
        entries_map(after).dom().contains(key) == target.dom().contains(key) by {
        if entries_map(after).dom().contains(key) {
            let j: int = choose|j: int| holds_at(after, key, j);
            assert(holds_at(entries, key, j));
        }
        if entries_map(entries).dom().contains(key) {
            let j: int = choose|j: int| holds_at(entries, key, j);
            assert(holds_at(after, key, j));
        }
        assert(holds_at(after, entry.key@, i));
    }
    assert forall|key: Seq<u8>| target.dom().contains(key) implies #[trigger] entries_map(
        after,
    )[key] == target[key] by {
        let j: int = choose|j: int| holds_at(after, key, j);
        assert(entries_map(after).dom().contains(key));
        lemma_entry_is_mapped(after, key, j);
        if key != entry.key@ {
            lemma_entry_is_mapped(entries, key, j);
        } else {
            lemma_entry_is_mapped(after, key, i);
        }
    }
    assert(entries_map(after) =~= target);
}

/// Appending an entry for a key that no entry holds inserts into the map
/// and keeps the keys distinct.
proof fn lemma_append_entry(entries: Seq<Entry>, entry: Entry)
    requires
        keys_distinct(entries),
        forall|i: int| !holds_at(entries, entry.key@, i),
    ensures
        keys_distinct(entries.push(entry)),
        entries_map(entries.push(entry)) == entries_map(entries).insert(entry.key@, entry.value@),
{
    let after: Seq<Entry> = entries.push(entry);
    let last: int = entries.len() as int;
    let target: Map<Seq<u8>, Seq<u8>> = entries_map(entries).insert(entry.key@, entry.value@);
    // The old positions hold what they held; the new one holds the new key.
    assert forall|key: Seq<u8>, j: int| holds_at(after, key, j) == (holds_at(entries, key, j) || (j
        == last && key == entry.key@)) by {}
    assert(keys_distinct(after)) by {
        assert forall|a: int, b: int| 0 <= a < b < after.len() implies (#[trigger] after[a]).key@
            != (#[trigger] after[b]).key@ by {
            if b == last {
                assert(!holds_at(entries, entry.key@, a));
            }
        }
    }
    assert forall|key: Seq<u8>| #[trigger]
        entries_map(after).dom().contains(key) == target.dom().contains(key) by {
        if entries_map(after).dom().contains(key) {
            let j: int = choose|j: int| holds_at(after, key, j);
            assert(holds_at(entries, key, j) || key == entry.key@);
        }
        if entries_map(entries).dom().contains(key) {
            let j: int = choose|j: int| holds_at(entries, key, j);
            assert(holds_at(after, key, j));
        }
        assert(holds_at(after, entry.key@, last));
    }
    assert forall|key: Seq<u8>| target.dom().contains(key) implies #[trigger] entries_map(
        after,
    )[key] == target[key] by {
        let j: int = choose|j: int| holds_at(after, key, j);
        assert(entries_map(after).dom().contains(key));
        lemma_entry_is_mapped(after, key, j);
        if key != entry.key@ {
            lemma_entry_is_mapped(entries, key, j);
        } else {
            lemma_entry_is_mapped(after, key, last);
        }
    }
    assert(entries_map(after) =~= target);
}

} // verus!

//! The name-to-address store: a keyed table from expanded wire-form domain
//! names to address payloads.

use vstd::prelude::*;

verus! {

/// A lookup table keyed by the expanded wire-form domain name (trailing
/// terminator byte included). Keys and values are held exactly as supplied:
/// no case folding, no canonicalization. A stored value is an address
/// payload, so it fits a record's 16-bit resource-data length field.
pub struct DNSStore {
    entries: Vec<(Vec<u8>, Vec<u8>)>,
}

/// The map an entry list stands for: later entries override earlier ones.
pub open spec fn spec_store_map(entries: Seq<(Vec<u8>, Vec<u8>)>) -> Map<Seq<u8>, Seq<u8>>
    decreases entries.len(),
{
    if entries.len() == 0 {
        Map::empty()
    } else {
        spec_store_map(entries.drop_last()).insert(entries.last().0@, entries.last().1@)
    }
}

impl View for DNSStore {
    type V = Map<Seq<u8>, Seq<u8>>;

    closed spec fn view(&self) -> Map<Seq<u8>, Seq<u8>> {
        spec_store_map(self.entries@)
    }
}

/// A key no entry holds is not in the map the entries stand for.
proof fn lemma_store_map_no_match(entries: Seq<(Vec<u8>, Vec<u8>)>, key: Seq<u8>)
    requires
        forall|j: int| 0 <= j < entries.len() ==> (#[trigger] entries[j]).0@ != key,
    ensures
        !spec_store_map(entries).contains_key(key),
    decreases entries.len(),
{
    if entries.len() > 0 {
        lemma_store_map_no_match(entries.drop_last(), key);
    }
}

/// Under unique keys, the entry holding a key gives the map's value for it.
proof fn lemma_store_map_match(entries: Seq<(Vec<u8>, Vec<u8>)>, i: int, key: Seq<u8>)
    requires
        forall|p: int, q: int|
            0 <= p < q < entries.len() ==> (#[trigger] entries[p]).0@ != (#[trigger] entries[q]).0@,
        0 <= i < entries.len(),
        entries[i].0@ == key,
    ensures
        spec_store_map(entries).contains_key(key),
        spec_store_map(entries)[key] == entries[i].1@,
    decreases entries.len(),
{
    if i == entries.len() - 1 {
    } else {
        assert(entries.last().0@ != key);
        assert(entries.drop_last()[i] == entries[i]);
        lemma_store_map_match(entries.drop_last(), i, key);
    }
}

/// Under unique keys, replacing the entry that holds a key updates the map at
/// exactly that key.
proof fn lemma_store_map_update(
    entries: Seq<(Vec<u8>, Vec<u8>)>,
    i: int,
    entry: (Vec<u8>, Vec<u8>),
)
    requires
        forall|p: int, q: int|
            0 <= p < q < entries.len() ==> (#[trigger] entries[p]).0@ != (#[trigger] entries[q]).0@,
        0 <= i < entries.len(),
        entries[i].0@ == entry.0@,
    ensures
        spec_store_map(entries.update(i, entry)) == spec_store_map(entries).insert(
            entry.0@,
            entry.1@,
        ),
    decreases entries.len(),
{
    let updated = entries.update(i, entry);
    if i == entries.len() - 1 {
        assert(updated.drop_last() =~= entries.drop_last());
        assert(updated.last() == entry);
        assert(spec_store_map(entries.drop_last()).insert(entry.0@, entry.1@)
            =~= spec_store_map(entries.drop_last()).insert(entries.last().0@, entries.last().1@)
            .insert(entry.0@, entry.1@));
    } else {
        let last = entries.last();
        assert(updated.drop_last() =~= entries.drop_last().update(i, entry));
        assert(updated.last() == last);
        assert(entries.drop_last()[i] == entries[i]);
        lemma_store_map_update(entries.drop_last(), i, entry);
        assert(last.0@ != entry.0@);
        assert(spec_store_map(entries.drop_last()).insert(entry.0@, entry.1@).insert(
            last.0@,
            last.1@,
        ) =~= spec_store_map(entries.drop_last()).insert(last.0@, last.1@).insert(
            entry.0@,
            entry.1@,
        ));
    }
}

/// Whether two byte strings hold the same bytes.
fn bytes_eq(a: &[u8], b: &[u8]) -> (r: bool)
    ensures
        r == (a@ == b@),
{
    if a.len() != b.len() {
        return false;
    }
    let mut i: usize = 0;
    while i < a.len()
        invariant
            i <= a@.len() == b@.len(),
            forall|j: int| 0 <= j < i ==> a@[j] == b@[j],
        decreases a@.len() - i,
    {
        if a[i] != b[i] {
            return false;
        }
        i = i + 1;
    }
    proof {
        assert(a@ =~= b@);
    }
    true
}

impl DNSStore {
    /// Whether the table's keys are pairwise distinct and every stored value
    /// fits a 16-bit length field; established by `init` and preserved by
    /// `insert`.
    pub closed spec fn wf(&self) -> bool {
        &&& forall|p: int, q: int|
            0 <= p < q < self.entries@.len() ==> (#[trigger] self.entries@[p]).0@ != (
            #[trigger] self.entries@[q]).0@
        &&& forall|j: int| 0 <= j < self.entries@.len() ==> (#[trigger] self.entries@[j]).1@.len()
            <= 0xffff
    }

    /// An empty store.
    pub fn init() -> (s: Self)
        ensures
            s.wf(),
            s@ == Map::<Seq<u8>, Seq<u8>>::empty(),
    {
        Self { entries: Vec::new() }
    }

    /// Binds `name` to `addr4`, replacing any address the name was bound to.
    pub fn insert(&mut self, name: Vec<u8>, addr4: Vec<u8>)
        requires
            old(self).wf(),
            addr4@.len() <= 0xffff,
        ensures
            final(self).wf(),
            final(self)@ == old(self)@.insert(name@, addr4@),
    {
        let mut i: usize = 0;
        while i < self.entries.len()
            invariant
                i <= self.entries@.len(),
                forall|j: int| 0 <= j < i ==> (#[trigger] self.entries@[j]).0@ != name@,
                self.wf(),
                self.entries@ == old(self).entries@,
                addr4@.len() <= 0xffff,
            decreases self.entries@.len() - i,
        {
            let hit = bytes_eq(self.entries[i].0.as_slice(), name.as_slice());
            if hit {
                proof {
                    lemma_store_map_update(self.entries@, i as int, (name, addr4));
                }
                self.entries[i] = (name, addr4);
                proof {
                    assert forall|p: int, q: int|
                        0 <= p < q < self.entries@.len() implies (#[trigger] self.entries@[p]).0@
                        != (#[trigger] self.entries@[q]).0@ by {
                        assert(old(self).entries@[p].0@ != old(self).entries@[q].0@);
                    }
                    assert forall|j: int| 0 <= j < self.entries@.len() implies (
                    #[trigger] self.entries@[j]).1@.len() <= 0xffff by {
                        assert(old(self).entries@[j].1@.len() <= 0xffff);
                    }
                }
                return ;
            }
            i = i + 1;
        }
        proof {
            let pushed = self.entries@.push((name, addr4));
            assert(pushed.drop_last() =~= self.entries@);
        }
        self.entries.push((name, addr4));
    }

    /// The address bound to `name`, if any.
    pub fn lookup(&self, name: &[u8]) -> (r: Option<&Vec<u8>>)
        requires
            self.wf(),
        ensures
            match r {
                Some(v) => self@.contains_key(name@) && v@ == self@[name@] && v@.len() <= 0xffff,
                None => !self@.contains_key(name@),
            },
    {
        let mut i: usize = 0;
        while i < self.entries.len()
            invariant
                i <= self.entries@.len(),
                forall|j: int| 0 <= j < i ==> (#[trigger] self.entries@[j]).0@ != name@,
                self.wf(),
            decreases self.entries@.len() - i,
        {
            let entry = &self.entries[i];
            let hit = bytes_eq(entry.0.as_slice(), name);
            if hit {
                proof {
                    lemma_store_map_match(self.entries@, i as int, name@);
                }
                return Some(&entry.1);
            }
            i = i + 1;
        }
        proof {
            lemma_store_map_no_match(self.entries@, name@);
        }
        None
    }
}

} // verus!

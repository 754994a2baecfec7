//! What every operation shares: the limit on keys, and the statistics table.

use crate::error::{ClientError, MemcacheError};
use crate::text::same_text;
use vstd::prelude::*;
use vstd::string::StringSliceAdditionalSpecFns;

verus! {

/// The longest key, in bytes, that a server accepts.
pub const MAX_KEY_LEN: usize = 250;

/// Whether a key of these bytes may be sent.
pub open spec fn key_fits(key: Seq<u8>) -> bool {
    key.len() <= MAX_KEY_LEN
}

/// Refuses a key that is longer than 250 bytes.
pub fn check_key_len(key: &str) -> (result: Result<(), MemcacheError>)
    ensures
        key_fits(key.spec_bytes()) ==> result == Ok::<(), MemcacheError>(()),
        !key_fits(key.spec_bytes()) ==> result == Err::<(), MemcacheError>(
            MemcacheError::ClientError(ClientError::KeyTooLong),
        ),
{
    if key.as_bytes().len() > MAX_KEY_LEN {
        Err(MemcacheError::ClientError(ClientError::KeyTooLong))
    } else {
        Ok(())
    }
}

/// The statistics of a server: a table from names to values.
///
/// The table keeps one entry for each name; storing under a name that is
/// present replaces its value.
pub struct Stats {
    entries: Vec<(String, String)>,
}

impl View for Stats {
    type V = Map<Seq<char>, Seq<char>>;

    closed spec fn view(&self) -> Map<Seq<char>, Seq<char>> {
        Map::new(
            |name: Seq<char>| exists|i: int| self.names_at(i, name),
            |name: Seq<char>| self.entries@[choose|i: int| self.names_at(i, name)].1@,
        )
    }
}

impl Stats {
    /// Whether entry `i` exists and is filed under `name`.
    spec fn names_at(&self, i: int, name: Seq<char>) -> bool {
        0 <= i < self.entries@.len() && self.entries@[i].0@ == name
    }

    #[verifier::type_invariant]
    spec fn no_name_twice(&self) -> bool {
        forall|i: int, j: int|
            0 <= i < j < self.entries@.len() ==> self.entries@[i].0@ != self.entries@[j].0@
    }

    /// An empty table.
    pub fn new() -> (stats: Stats)
        ensures
            stats@ == Map::<Seq<char>, Seq<char>>::empty(),
    {
        let stats = Stats { entries: Vec::new() };
        assert(stats@ =~= Map::<Seq<char>, Seq<char>>::empty());
        stats
    }

    /// The number of entries.
    pub fn len(&self) -> (n: usize)
        ensures
            self@.dom().finite(),
            n == self@.dom().len(),
    {
        proof {
            use_type_invariant(self);
            let names = Seq::new(self.entries@.len(), |i: int| self.entries@[i].0@);
            assert(names.no_duplicates());
            names.unique_seq_to_set();
            assert forall|name: Seq<char>| self@.dom().contains(name) implies names.to_set().contains(
                name,
            ) by {
                let i = choose|i: int| self.names_at(i, name);
                assert(names[i] == name);
            }
            assert forall|name: Seq<char>| names.to_set().contains(name) implies self@.dom().contains(
                name,
            ) by {
                let i = choose|i: int| 0 <= i < names.len() && names[i] == name;
                assert(self.names_at(i, name));
            }
            assert(self@.dom() =~= names.to_set());
        }
        self.entries.len()
    }

    /// The position of the entry filed under `name`, if there is one.
    fn position(&self, name: &str) -> (found: Option<usize>)
        ensures
            match found {
                Some(i) => self.names_at(i as int, name@),
                None => forall|j: int| !self.names_at(j, name@),
            },
    {
        let mut i: usize = 0;
        while i < self.entries.len()
            invariant
                i <= self.entries@.len(),
                forall|j: int| 0 <= j < i ==> !self.names_at(j, name@),
            decreases self.entries@.len() - i,
        {
            if same_text(self.entries[i].0.as_str(), name) {
                return Some(i);
            }
            i = i + 1;
        }
        None
    }

    /// The value filed under `name`, if there is one.
    pub fn get(&self, name: &str) -> (value: Option<&String>)
        ensures
            match value {
                Some(v) => self@.contains_pair(name@, v@),
                None => !self@.contains_key(name@),
            },
    {
        match self.position(name) {
            Some(i) => {
                proof {
                    use_type_invariant(self);
                    let j = choose|j: int| self.names_at(j, name@);
                    assert(j == i);
                }
                Some(&self.entries[i].1)
            },
            None => {
                assert(!self@.contains_key(name@));
                None
            },
        }
    }

    /// Files `value` under `name`, in place of any value that was there.
    pub fn insert(&mut self, name: String, value: String)
        ensures
            final(self)@ == old(self)@.insert(name@, value@),
    {
        let found = self.position(name.as_str());
        let ghost before = *self;
        proof {
            use_type_invariant(&*self);
        }
        assert(found is None ==> forall|j: int|
            0 <= j < self.entries@.len() ==> !self.names_at(j, name@));
        let mut taken = Stats { entries: Vec::new() };
        core::mem::swap(self, &mut taken);
        let mut entries = taken.entries;
        match found {
            Some(i) => {
                entries.set(i, (name, value));
            },
            None => {
                entries.push((name, value));
            },
        }
        proof {
            let was = before.entries@;
            assert forall|a: int, b: int| 0 <= a < b < entries@.len() implies entries@[a].0@
                != entries@[b].0@ by {
                if b < was.len() {
                    assert(was[a].0@ != was[b].0@);
                } else {
                    assert(!before.names_at(a, name@));
                }
            }
        }
        *self = Stats { entries };
        proof {
            let after = *self;
            assert forall|k: Seq<char>| #[trigger]
                after@.contains_key(k) <==> before@.insert(name@, value@).contains_key(k) by {
                if after@.contains_key(k) {
                    let j = choose|j: int| after.names_at(j, k);
                    if k != name@ {
                        assert(before.names_at(j, k));
                    }
                }
                if before@.contains_key(k) && k != name@ {
                    let j = choose|j: int| before.names_at(j, k);
                    assert(after.names_at(j, k));
                }
                if k == name@ {
                    match found {
                        Some(i) => {
                            assert(after.names_at(i as int, k));
                        },
                        None => {
                            assert(after.names_at(before.entries@.len() as int, k));
                        },
                    }
                }
            }
            assert forall|k: Seq<char>| #[trigger] after@.contains_key(k) implies after@[k]
                == before@.insert(name@, value@)[k] by {
                let j = choose|j: int| after.names_at(j, k);
                if k != name@ {
                    assert(before.names_at(j, k));
                    let j0 = choose|j0: int| before.names_at(j0, k);
                    assert(j0 == j);
                } else {
                    match found {
                        Some(i) => {
                            assert(after.names_at(i as int, k));
                            assert(j == i);
                        },
                        None => {
                            assert(after.names_at(before.entries@.len() as int, k));
                            assert(j == before.entries@.len());
                        },
                    }
                }
            }
            assert(after@ =~= before@.insert(name@, value@));
        }
    }

    /// The entries, each as a pair of name and value: every pair of the
    /// table once, and nothing else.
    pub fn into_entries(self) -> (entries: Vec<(String, String)>)
        ensures
            forall|i: int|
                0 <= i < entries@.len() ==> self@.contains_pair(
                    (#[trigger] entries@[i]).0@,
                    entries@[i].1@,
                ),
            forall|name: Seq<char>|
                self@.contains_key(name) ==> exists|i: int|
                    0 <= i < entries@.len() && (#[trigger] entries@[i]).0@ == name,
            forall|i: int, j: int|
                0 <= i < j < entries@.len() ==> (#[trigger] entries@[i]).0@ != (
                #[trigger] entries@[j]).0@,
    {
        proof {
            use_type_invariant(&self);
            assert forall|i: int| 0 <= i < self.entries@.len() implies self@.contains_pair(
                (#[trigger] self.entries@[i]).0@,
                self.entries@[i].1@,
            ) by {
                let name = self.entries@[i].0@;
                assert(self.names_at(i, name));
                let j = choose|j: int| self.names_at(j, name);
                assert(j == i);
            }
            assert forall|name: Seq<char>| self@.contains_key(name) implies exists|i: int|
                0 <= i < self.entries@.len() && (#[trigger] self.entries@[i]).0@ == name by {
                let i = choose|i: int| self.names_at(i, name);
                assert(self.entries@[i].0@ == name);
            }
        }
        self.entries
    }
}

} // verus!

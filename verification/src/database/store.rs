//! The bounded store.

use super::accounting::{
    entry_size, lemma_total_size_insert, lemma_total_size_remove, total_size,
};
use super::value::{Value, ValueView};
use vstd::hash_map::StringHashMap;
use vstd::prelude::*;
use vstd::string::StrSliceExecFns;

verus! {

/// Why a store operation was refused.
#[derive(Debug, PartialEq, Eq, Clone, Copy)]
pub enum DatabaseError {
    /// The key is not in the store.
    KeyDoesNotExist,
    /// Admitting the entry would push the total size over the limit.
    MaxSizeExceeded,
}

/// Whether a store with the entries `m` and the limit `max_size` has room
/// for `value` under `key`: the total as it stands and the new entry must
/// fit together. This is so whether or not `key` is held already; the room
/// that an overwrite gives back is not counted on beforehand.
pub open spec fn admits(
    m: Map<Seq<char>, ValueView>,
    max_size: int,
    key: Seq<char>,
    value: ValueView,
) -> bool {
    total_size(m) + entry_size(key, value) <= max_size
}

/// What the entries of a store are after a write is asked of it.
pub open spec fn set_result(
    m: Map<Seq<char>, ValueView>,
    max_size: int,
    key: Seq<char>,
    value: ValueView,
) -> Result<Map<Seq<char>, ValueView>, DatabaseError> {
    if admits(m, max_size, key, value) {
        Ok(m.insert(key, value))
    } else {
        Err(DatabaseError::MaxSizeExceeded)
    }
}

/// What the entries of a store are after a removal is asked of it.
pub open spec fn remove_result(m: Map<Seq<char>, ValueView>, key: Seq<char>) -> Result<
    Map<Seq<char>, ValueView>,
    DatabaseError,
> {
    if m.contains_key(key) {
        Ok(m.remove(key))
    } else {
        Err(DatabaseError::KeyDoesNotExist)
    }
}

/// A write for which there is room succeeds, and a read of the same key
/// then finds the value that was written.
///
/// Room is what matters, not the size of the entry alone: an entry that
/// would fit into the empty store is still refused by a store whose total
/// leaves too little beside it.
pub proof fn lemma_set_then_get(
    m: Map<Seq<char>, ValueView>,
    max_size: int,
    key: Seq<char>,
    value: ValueView,
)
    requires
        admits(m, max_size, key, value),
    ensures
        set_result(m, max_size, key, value) matches Ok(entries) && entries.get(key) == Some(
            value,
        ),
{
}

/// The empty store admits every entry that is no larger than the limit.
pub proof fn lemma_empty_store_admits(max_size: int, key: Seq<char>, value: ValueView)
    requires
        entry_size(key, value) <= max_size,
    ensures
        admits(Map::empty(), max_size, key, value),
{
}

/// A write that is admitted leaves the total within the limit, and the
/// total is then the new entry's size plus that of the entries under other
/// keys: what the key held before is counted no longer.
pub proof fn lemma_set_keeps_limit(
    m: Map<Seq<char>, ValueView>,
    max_size: int,
    key: Seq<char>,
    value: ValueView,
)
    requires
        m.dom().finite(),
        admits(m, max_size, key, value),
    ensures
        total_size(m.insert(key, value)) == total_size(m.remove(key)) + entry_size(key, value),
        total_size(m.insert(key, value)) <= max_size,
{
    lemma_total_size_insert(m, key, value);
    if m.contains_key(key) {
        lemma_total_size_remove(m, key);
    } else {
        assert(m.remove(key) =~= m);
    }
}

/// A key-value store that accounts a size to every entry and refuses a write
/// that would take the total over its limit. Nothing is ever evicted.
///
/// Its view is the map from keys to the values they hold.
pub struct MemoryDatabase {
    items: StringHashMap<Value>,
    size: i32,
    max_size: i32,
}

impl View for MemoryDatabase {
    type V = Map<Seq<char>, ValueView>;

    closed spec fn view(&self) -> Map<Seq<char>, ValueView> {
        self.items@.map_values(|value: Value| value@)
    }
}

impl MemoryDatabase {
    /// What [`MemoryDatabase::size`] reports.
    pub closed spec fn spec_size(&self) -> i32 {
        self.size
    }

    /// The store is well formed when it has finitely many entries and its
    /// running total is the sum of their sizes. Every store that this
    /// module hands out is well formed, and every operation keeps it so.
    pub open spec fn wf(&self) -> bool {
        &&& self@.dom().finite()
        &&& self.spec_size() == total_size(self@)
    }

    /// The limit on the total size.
    pub closed spec fn max_size(&self) -> int {
        self.max_size as int
    }

    /// An empty store with a limit of 1,048,576.
    pub fn new() -> (db: MemoryDatabase)
        ensures
            db.wf(),
            db@ == Map::<Seq<char>, ValueView>::empty(),
            db.max_size() == 1024 * 1024,
    {
        MemoryDatabase::with_max_size(1024 * 1024)
    }

    /// An empty store with the limit `max_size`.
    pub fn with_max_size(max_size: i32) -> (db: MemoryDatabase)
        ensures
            db.wf(),
            db@ == Map::<Seq<char>, ValueView>::empty(),
            db.max_size() == max_size,
    {
        let items: StringHashMap<Value> = StringHashMap::new();
        assert(items@.map_values(|value: Value| value@) =~= Map::<Seq<char>, ValueView>::empty());
        MemoryDatabase { items, size: 0, max_size }
    }

    /// The total size of the entries: the sum of their sizes, not their
    /// number.
    #[verifier::when_used_as_spec(spec_size)]
    pub fn size(&self) -> (total: i32)
        ensures
            total == self.spec_size(),
            self.wf() ==> total == total_size(self@),
    {
        self.size
    }

    /// The value under `key`, if there is one.
    pub fn get(&self, key: &str) -> (r: Option<&Value>)
        ensures
            match self@.get(key@) {
                Some(held) => r matches Some(value) && value@ == held,
                None => r is None,
            },
    {
        self.items.get(key)
    }

    /// Writes `value` under `key`, in place of what `key` held before.
    ///
    /// The write is admitted if the total as it stands and the size of the
    /// new entry fit within the limit together, whether or not `key` is held
    /// already. A write that is refused changes nothing: no entry is added,
    /// replaced or dropped, and the total stays.
    ///
    /// A write that is admitted is accounted once: the size of the entry
    /// that it replaces, if any, is given back, and the size of the new one
    /// is added.
    pub fn set(&mut self, key: String, value: Value) -> (r: Result<(), DatabaseError>)
        requires
            old(self).wf(),
        ensures
            final(self).wf(),
            final(self).max_size() == old(self).max_size(),
            match set_result(old(self)@, old(self).max_size(), key@, value@) {
                Ok(entries) => {
                    &&& r is Ok
                    &&& final(self)@ == entries
                    &&& final(self).size() == total_size(old(self)@.remove(key@)) + entry_size(
                        key@,
                        value@,
                    )
                },
                Err(e) => r == Err::<(), DatabaseError>(e) && *final(self) == *old(self),
            },
    {
        proof {
            if self@.contains_key(key@) {
                lemma_total_size_remove(self@, key@);
            } else {
                assert(self@.remove(key@) =~= self@);
            }
            lemma_total_size_insert(self@, key@, value@);
        }
        let item_size = match Self::calculate_value_size(key.as_str(), &value) {
            Some(size) => size,
            None => {
                return Err(DatabaseError::MaxSizeExceeded);
            },
        };
        if self.size as i64 + item_size as i64 > self.max_size as i64 {
            return Err(DatabaseError::MaxSizeExceeded);
        }
        let freed: i32 = match self.held_size(key.as_str()) {
            Some(size) => size,
            None => 0,
        };
        let total: i64 = self.size as i64 - freed as i64 + item_size as i64;
        proof {
            assert(self.items@.insert(key@, value).map_values(|v: Value| v@) =~= self@.insert(
                key@,
                value@,
            ));
        }
        self.items.insert(key, value);
        self.size = total as i32;
        Ok(())
    }

    /// Takes the entry under `key` out of the store. Fails, and changes
    /// nothing, if there is none.
    pub fn remove(&mut self, key: &str) -> (r: Result<(), DatabaseError>)
        requires
            old(self).wf(),
        ensures
            final(self).wf(),
            final(self).max_size() == old(self).max_size(),
            match remove_result(old(self)@, key@) {
                Ok(entries) => {
                    &&& r is Ok
                    &&& final(self)@ == entries
                    &&& final(self).size() == old(self).size() - entry_size(key@, old(self)@[key@])
                },
                Err(e) => r == Err::<(), DatabaseError>(e) && *final(self) == *old(self),
            },
    {
        proof {
            if self@.contains_key(key@) {
                lemma_total_size_remove(self@, key@);
            }
        }
        let item_size: i32 = match self.held_size(key) {
            Some(size) => size,
            None => {
                return Err(DatabaseError::KeyDoesNotExist);
            },
        };
        proof {
            assert(self.items@.remove(key@).map_values(|v: Value| v@) =~= self@.remove(key@));
        }
        self.items.remove(key);
        self.size = self.size - item_size;
        Ok(())
    }

    /// The size that the entry under `key` is accounted with, if there is
    /// such an entry.
    fn held_size(&self, key: &str) -> (r: Option<i32>)
        requires
            self.wf(),
        ensures
            match self@.get(key@) {
                Some(held) => r matches Some(size) && size == entry_size(key@, held),
                None => r is None,
            },
    {
        match self.items.get(key) {
            Some(held) => {
                proof {
                    // The total is an `i32`, and no entry is larger than the total.
                    lemma_total_size_remove(self@, key@);
                }
                Self::calculate_value_size(key, held)
            },
            None => None,
        }
    }

    /// The size that an entry is accounted with, or `None` if it is more
    /// than any limit can be.
    fn calculate_value_size(key: &str, value: &Value) -> (r: Option<i32>)
        ensures
            match r {
                Some(size) => size == entry_size(key@, value@),
                None => entry_size(key@, value@) > i32::MAX,
            },
    {
        let key_size: usize = key.unicode_len();
        let value_size: usize = match value {
            Value::Integer(_) => 4,
            Value::String(text) => text.as_str().unicode_len(),
            Value::Float(_) => 8,
            Value::Boolean(_) => 1,
        };
        let most: usize = 0x7fff_ffff;
        if key_size > most || value_size > most - key_size {
            None
        } else {
            Some((key_size + value_size) as i32)
        }
    }
}

} // verus!

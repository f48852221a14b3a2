//! What a table is, mathematically: a finite map from non-zero keys to
//! values, one side entry for the key zero, and a slot capacity. The
//! operations of the table are stated here as functions on that value, and
//! the laws that relate them are proved of it.

use vstd::prelude::*;

verus! {

/// The key that marks an empty slot, and so cannot sit in one.
pub const FREE_KEY: u64 = 0;

/// The slot capacity of a new table.
pub const INITIAL_SLOTS: u64 = 64;

/// The most entries that `slot_capacity` slots may hold: seven eighths.
pub open spec fn load_limit(slot_capacity: nat) -> nat {
    (slot_capacity / 16) * 14
}

/// The abstract state of a table.
pub ghost struct TableView {
    /// The pairs held in slots; the key zero is never among them.
    pub entries: Map<u64, u64>,
    /// The value last inserted under the key zero (zero if none was).
    pub reserved_value: u64,
    /// Whether the key zero is present.
    pub reserved_present: bool,
    /// The number of slots.
    pub slot_capacity: nat,
}

impl TableView {
    /// What every table satisfies.
    pub open spec fn valid(self) -> bool {
        &&& self.entries.dom().finite()
        &&& !self.entries.contains_key(FREE_KEY)
        &&& self.entries.dom().len() <= load_limit(self.slot_capacity)
    }

    /// The table as constructed.
    pub open spec fn empty() -> TableView {
        TableView {
            entries: Map::empty(),
            reserved_value: 0,
            reserved_present: false,
            slot_capacity: INITIAL_SLOTS as nat,
        }
    }

    /// The number of slots that hold a key.
    pub open spec fn occupied_count(self) -> nat {
        self.entries.dom().len()
    }

    /// The number of words of storage: two for each slot.
    pub open spec fn storage_len(self) -> nat {
        2 * self.slot_capacity
    }

    /// The result of a lookup. The key zero reports its side entry as it
    /// stands, value and presence apart; an absent key reports `(0, false)`.
    pub open spec fn get(self, key: u64) -> (u64, bool) {
        if key == FREE_KEY {
            (self.reserved_value, self.reserved_present)
        } else if self.entries.contains_key(key) {
            (self.entries[key], true)
        } else {
            (0, false)
        }
    }

    /// The table after `key` has been bound to `value`. The capacity doubles
    /// when the entries then exceed the load limit.
    pub open spec fn insert(self, key: u64, value: u64) -> TableView {
        if key == FREE_KEY {
            TableView {
                entries: self.entries,
                reserved_value: value,
                reserved_present: true,
                slot_capacity: self.slot_capacity,
            }
        } else {
            let entries = self.entries.insert(key, value);
            TableView {
                entries,
                reserved_value: self.reserved_value,
                reserved_present: self.reserved_present,
                slot_capacity: if entries.dom().len() > load_limit(self.slot_capacity) {
                    2 * self.slot_capacity
                } else {
                    self.slot_capacity
                },
            }
        }
    }

    /// What a deletion reports. For the key zero that is its stored value and
    /// `true`, whether or not it was present; for any other key, the lookup.
    pub open spec fn removed(self, key: u64) -> (u64, bool) {
        if key == FREE_KEY {
            (self.reserved_value, true)
        } else {
            self.get(key)
        }
    }

    /// The table after a deletion. The key zero keeps its value and loses its
    /// presence; the capacity never shrinks.
    pub open spec fn delete(self, key: u64) -> TableView {
        if key == FREE_KEY {
            TableView {
                entries: self.entries,
                reserved_value: self.reserved_value,
                reserved_present: false,
                slot_capacity: self.slot_capacity,
            }
        } else {
            TableView {
                entries: self.entries.remove(key),
                reserved_value: self.reserved_value,
                reserved_present: self.reserved_present,
                slot_capacity: self.slot_capacity,
            }
        }
    }
}

} // verus!

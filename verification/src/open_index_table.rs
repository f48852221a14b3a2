//! The table itself: a flat vector of key and value words, probed linearly.

use vstd::prelude::*;
use crate::hashing::is_pow2;
use crate::hashing::home_slot;
use crate::hashing::slot_offset;
use crate::hashing::next_offset;
use crate::hashing::lemma_pow2_double;
use crate::hashing::lemma_pow2_half;
use crate::model::TableView;
use crate::model::FREE_KEY;
use crate::model::INITIAL_SLOTS;
use crate::slots::key_at;
use crate::slots::val_at;
use crate::slots::in_arc;
use crate::slots::arc_len;
use crate::slots::succ;
use crate::slots::keys_distinct;
use crate::slots::chains_hold;
use crate::slots::count_occupied;
use crate::slots::has_key;
use crate::slots::entries;
use crate::slots::with_slot;
use crate::slots::moved;
use crate::slots::lemma_count_bounds;
use crate::slots::lemma_count_monotone;
use crate::slots::lemma_find_empty;
use crate::slots::lemma_find_other_empty;
use crate::slots::lemma_all_empty;
use crate::slots::lemma_put;
use crate::slots::lemma_put_chains;
use crate::slots::lemma_entry_at;
use crate::slots::lemma_clear;
use crate::slots::lemma_absent;
use crate::slots::lemma_move;
use crate::slots::lemma_close_gap;
use crate::slots::lemma_entries_extend;

verus! {

/// A hash table from `u64` keys to `u64` values. Keys and values alternate
/// in one vector; the key zero cannot sit there and has a side entry.
pub struct OpenIndexTable {
    data: Vec<u64>,
    data_cap: u64,
    data_mask: u64,
    cap: u64,
    cap_mask: u64,
    size: u64,
    free_value: u64,
    free_set: bool,
}

impl View for OpenIndexTable {
    type V = TableView;

    closed spec fn view(&self) -> TableView {
        TableView {
            entries: entries(self.data@, self.cap_mask + 1),
            reserved_value: self.free_value,
            reserved_present: self.free_set,
            slot_capacity: (self.cap_mask + 1) as nat,
        }
    }
}

/// Whether position `last` lies on the cyclic walk that starts at `slot` and
/// stops just before `current`. For a pair found at `current` whose probe
/// sequence starts at `slot`, this says that its walk passes through `last`,
/// so that it must move there once `last` is vacated.
pub fn in_cyclic_interval(slot: u64, last: u64, current: u64) -> (r: bool)
    ensures
        r == in_arc(slot as int, last as int, current as int),
{
    if last < current {
        last >= slot || slot > current
    } else {
        last >= slot && slot > current
    }
}

impl OpenIndexTable {
    /// The layout invariant, with one slot, `hole`, allowed to be missing
    /// from the chains.
    closed spec fn laid_out_with(&self, hole: int) -> bool {
        let n = self.cap_mask + 1;
        &&& self.shaped()
        &&& self.size == count_occupied(self.data@, n)
        &&& entries(self.data@, n).dom().finite()
        &&& self.size == entries(self.data@, n).dom().len()
        &&& keys_distinct(self.data@, n)
        &&& chains_hold(self.data@, self.cap_mask, hole)
    }

    /// The storage has two words for each slot, the slot count is a power of
    /// two and a multiple of sixteen, and the masks and the load limit are
    /// those of that slot count.
    closed spec fn shaped(&self) -> bool {
        let n = self.cap_mask + 1;
        &&& self.data@.len() == 2 * n
        &&& self.data.len() == 2 * n
        &&& self.data_cap == 2 * n
        &&& self.data_mask == 2 * n - 1
        &&& is_pow2(self.data_cap)
        &&& n % 16 == 0
        &&& self.cap == (n / 16) * 14
    }

    closed spec fn laid_out(&self) -> bool {
        self.laid_out_with(-1)
    }

    /// The invariant of the table: every key is found by probing from its
    /// home slot, no key sits in two slots, and the occupied slots are within
    /// the load limit.
    pub closed spec fn wf(&self) -> bool {
        self.laid_out() && self.size <= self.cap
    }

    /// Everything but the storage and the count is as in `other`.
    closed spec fn same_frame(&self, other: &OpenIndexTable) -> bool {
        &&& self.data_cap == other.data_cap
        &&& self.data_mask == other.data_mask
        &&& self.cap == other.cap
        &&& self.cap_mask == other.cap_mask
        &&& self.free_value == other.free_value
        &&& self.free_set == other.free_set
    }

    /// A well-formed table has a valid view.
    pub proof fn lemma_view_valid(&self)
        requires
            self.wf(),
        ensures
            self@.valid(),
            self@.slot_capacity >= 16,
            self@.slot_capacity % 16 == 0,
            self@.slot_capacity <= u64::MAX,
            is_pow2(self@.slot_capacity as u64),
            self@.storage_len() <= usize::MAX,
    {
        lemma_pow2_half(self.data_cap);
    }

    /// An empty table of sixty-four slots.
    pub fn new() -> (t: OpenIndexTable)
        ensures
            t.wf(),
            t@ == TableView::empty(),
    {
        let initial_cap: u64 = INITIAL_SLOTS;
        let t = OpenIndexTable {
            data: vec![0u64; 128],
            data_mask: 2 * initial_cap - 1,
            data_cap: 2 * initial_cap,
            cap: (initial_cap / 16) * 14,
            cap_mask: initial_cap - 1,
            free_value: 0,
            free_set: false,
            size: 0,
        };
        proof {
            assert(128u64 & 127u64 == 0) by (bit_vector);
            lemma_all_empty(t.data@, 64);
        }
        t
    }

    /// The word offset at which the probe sequence of `k` starts.
    fn index(&self, k: u64) -> (w: u64)
        requires
            self.shaped(),
        ensures
            w == 2 * home_slot(k, self.cap_mask),
            0 <= home_slot(k, self.cap_mask) <= self.cap_mask,
    {
        slot_offset(k, self.cap_mask)
    }

    /// The word offset of the slot after the one at `index`, wrapping round.
    fn next(&self, index: u64) -> (w: u64)
        requires
            self.shaped(),
            index % 2 == 0,
            index < self.data_cap,
        ensures
            w == (if index + 2 == self.data_cap {
                0
            } else {
                index + 2
            }),
            index + 2 <= self.data_cap,
    {
        next_offset(index, self.data_cap)
    }

    /// Walks the probe sequence of `key` to the slot that holds it, or to the
    /// first empty slot if none does, and returns that slot's word offset and
    /// its number.
    fn probe(&self, key: u64) -> (r: (u64, Ghost<int>))
        requires
            self.laid_out(),
            self.size <= self.cap,
            key != FREE_KEY,
        ensures
            r.0 == 2 * r.1@,
            0 <= r.1@ <= self.cap_mask,
            key_at(self.data@, r.1@) == key || key_at(self.data@, r.1@) == 0,
            key_at(self.data@, r.1@) == 0 ==> !has_key(self.data@, self.cap_mask + 1, key),
            forall|x: int|
                0 <= x <= self.cap_mask && in_arc(home_slot(key, self.cap_mask), x, r.1@)
                    ==> #[trigger] key_at(self.data@, x) != 0,
    {
        let ghost n = self.cap_mask + 1;
        let ghost h = home_slot(key, self.cap_mask);
        let ghost e = lemma_find_empty(self.data@, n);
        let ghost s = self.data@;
        let mut index: u64 = self.index(key);
        let ghost mut j: int = h;
        loop
            invariant
                self.shaped(),
                s == self.data@,
                chains_hold(s, self.cap_mask, -1),
                n == self.cap_mask + 1,
                h == home_slot(key, self.cap_mask),
                key != FREE_KEY,
                0 <= h < n,
                0 <= e < n,
                key_at(s, e) == 0,
                index == 2 * j,
                0 <= j < n,
                forall|x: int|
                    0 <= x < n && in_arc(h, x, j) ==> #[trigger] key_at(s, x) != 0 && key_at(s, x)
                        != key,
                !in_arc(h, e, j),
            decreases arc_len(j, e, n),
        {
            let assigned_key: u64 = self.data[index as usize];
            assert(assigned_key == key_at(s, j));
            if assigned_key == key || assigned_key == FREE_KEY {
                proof {
                    if assigned_key == FREE_KEY {
                        lemma_absent(s, self.cap_mask, key, j);
                    }
                }
                return (index, Ghost(j));
            }
            index = self.next(index);
            proof {
                j = succ(j, n);
            }
        }
    }

    /// The value bound to `key` and whether there is one. The key zero
    /// reports its side entry; any other absent key reports `(0, false)`.
    pub fn get(&self, key: u64) -> (r: (u64, bool))
        requires
            self.wf(),
        ensures
            r == self@.get(key),
    {
        if key == FREE_KEY {
            return (self.free_value, self.free_set);
        }
        let (index, Ghost(j)) = self.probe(key);
        let assigned_key: u64 = self.data[index as usize];
        assert(assigned_key == key_at(self.data@, j));
        if assigned_key == FREE_KEY {
            return (0, false);
        }
        proof {
            lemma_entry_at(self.data@, self.cap_mask + 1, j);
        }
        let value: u64 = self.data[index as usize + 1];
        assert(value == val_at(self.data@, j));
        (value, true)
    }

    /// Binds `new_key` to `v` in the storage, without growing it.
    fn place(&mut self, new_key: u64, v: u64)
        requires
            old(self).laid_out(),
            old(self).size <= old(self).cap,
            new_key != FREE_KEY,
        ensures
            final(self).laid_out(),
            final(self).same_frame(old(self)),
            entries(final(self).data@, final(self).cap_mask + 1) == entries(
                old(self).data@,
                old(self).cap_mask + 1,
            ).insert(new_key, v),
    {
        let ghost n = self.cap_mask + 1;
        let ghost s = self.data@;
        let (index, Ghost(j)) = self.probe(new_key);
        let assigned_key: u64 = self.data[index as usize];
        assert(assigned_key == key_at(s, j));
        proof {
            lemma_put(s, n, j, new_key, v);
            lemma_put_chains(s, self.cap_mask, j, new_key, v);
            if assigned_key != FREE_KEY {
                lemma_entry_at(s, n, j);
            }
        }
        if assigned_key == FREE_KEY {
            self.size += 1;
            self.data[index as usize] = new_key;
        }
        self.data[index as usize + 1] = v;
        assert(self.data@ =~= with_slot(s, j, new_key, v));
    }

    /// Binds `new_key` to `v`, replacing an earlier value, and doubles the
    /// capacity if the occupied slots then exceed the load limit. The storage
    /// of the resulting table must be addressable.
    pub fn insert(&mut self, new_key: u64, v: u64)
        requires
            old(self).wf(),
            old(self)@.insert(new_key, v).storage_len() <= usize::MAX,
        ensures
            final(self).wf(),
            final(self)@ == old(self)@.insert(new_key, v),
    {
        if new_key == FREE_KEY {
            self.free_value = v;
            self.free_set = true;
            return ;
        }
        self.place(new_key, v);
        self.expand();
    }

    /// Removes `key` and reports the value it had and whether it was there.
    /// The key zero keeps its value, loses its presence, and is always
    /// reported as found.
    pub fn delete(&mut self, key: u64) -> (r: (u64, bool))
        requires
            old(self).wf(),
        ensures
            final(self).wf(),
            r == old(self)@.removed(key),
            final(self)@ == old(self)@.delete(key),
    {
        if key == FREE_KEY {
            self.free_set = false;
            return (self.free_value, true);
        }
        let ghost n = self.cap_mask + 1;
        let ghost s = self.data@;
        let (index, Ghost(j)) = self.probe(key);
        let assigned_key: u64 = self.data[index as usize];
        assert(assigned_key == key_at(s, j));
        if assigned_key == FREE_KEY {
            assert(entries(s, n).remove(key) =~= entries(s, n));
            return (0, false);
        }
        let v: u64 = self.data[index as usize + 1];
        assert(v == val_at(s, j));
        proof {
            lemma_entry_at(s, n, j);
            lemma_clear(s, self.cap_mask, j);
            lemma_count_bounds(s.update(2 * j, 0), n);
        }
        self.data[index as usize] = FREE_KEY;
        self.size -= 1;
        assert(self.data@ =~= s.update(2 * j, 0));
        self.unshift(index, Ghost(j));
        (v, true)
    }

    /// Closes the hole left at `current` by moving back, one after another,
    /// the pairs whose probe walks pass through it, until an empty slot ends
    /// the run.
    fn unshift(&mut self, current: u64, Ghost(hole): Ghost<int>)
        requires
            old(self).laid_out_with(hole),
            current == 2 * hole,
            0 <= hole <= old(self).cap_mask,
            key_at(old(self).data@, hole) == 0,
            old(self).size + 1 <= old(self).cap,
        ensures
            final(self).laid_out(),
            final(self).same_frame(old(self)),
            final(self).size == old(self).size,
            entries(final(self).data@, final(self).cap_mask + 1) == entries(
                old(self).data@,
                old(self).cap_mask + 1,
            ),
    {
        let ghost n = self.cap_mask + 1;
        let ghost kept = entries(self.data@, n);
        let ghost e = lemma_find_other_empty(self.data@, n, hole);
        let mut last: u64 = current;
        let mut current: u64 = self.next(current);
        let ghost mut l: int = hole;
        let ghost mut c: int = succ(hole, n);
        loop
            invariant
                self.laid_out_with(l),
                self.same_frame(old(self)),
                self.size == old(self).size,
                entries(self.data@, n) == kept,
                kept == entries(old(self).data@, old(self).cap_mask + 1),
                n == self.cap_mask + 1,
                last == 2 * l,
                current == 2 * c,
                0 <= l < n,
                0 <= c < n,
                l != c,
                key_at(self.data@, l) == 0,
                0 <= e < n,
                key_at(self.data@, e) == 0,
                e != l,
                !in_arc(succ(l, n), e, c),
                forall|x: int|
                    0 <= x < n && in_arc(succ(l, n), x, c) ==> #[trigger] key_at(self.data@, x) != 0
                        && !in_arc(home_slot(key_at(self.data@, x), self.cap_mask), l, x),
            decreases arc_len(c, e, n),
        {
            let ghost s = self.data@;
            let key: u64 = self.data[current as usize];
            assert(key == key_at(s, c));
            if key == FREE_KEY {
                proof {
                    lemma_close_gap(s, self.cap_mask, l, c);
                }
                return ;
            }
            let slot: u64 = self.index(key);
            if in_cyclic_interval(slot, last, current) {
                let value: u64 = self.data[current as usize + 1];
                assert(value == val_at(s, c));
                proof {
                    lemma_move(s, self.cap_mask, l, c);
                }
                self.data[last as usize] = key;
                self.data[last as usize + 1] = value;
                self.data[current as usize] = FREE_KEY;
                assert(self.data@ =~= moved(s, l, c));
                last = current;
                proof {
                    l = c;
                }
            }
            current = self.next(current);
            proof {
                c = succ(c, n);
            }
        }
    }

    /// Doubles the capacity and reinserts every pair, if the occupied slots
    /// exceed the load limit; does nothing otherwise.
    fn expand(&mut self)
        requires
            old(self).laid_out(),
            old(self).size <= old(self).cap + 1,
            old(self).size > old(self).cap ==> 4 * (old(self).cap_mask + 1) <= usize::MAX,
        ensures
            final(self).wf(),
            final(self).free_value == old(self).free_value,
            final(self).free_set == old(self).free_set,
            entries(final(self).data@, final(self).cap_mask + 1) == entries(
                old(self).data@,
                old(self).cap_mask + 1,
            ),
            final(self).cap_mask + 1 == (if old(self).size > old(self).cap {
                2 * (old(self).cap_mask + 1)
            } else {
                old(self).cap_mask + 1
            }),
    {
        if self.size <= self.cap {
            return ;
        }
        let ghost slots = self.cap_mask + 1;
        let ghost s = self.data@;
        let data_cap: u64 = self.data_cap * 2;
        let cap: u64 = self.cap * 2;
        assert(data_cap >> 1 == data_cap / 2) by (bit_vector);
        let mut new = OpenIndexTable {
            data: vec![0u64; data_cap as usize],
            data_cap: data_cap,
            data_mask: data_cap - 1,
            cap_mask: (data_cap >> 1) - 1,
            cap: cap,
            size: 0,
            free_value: self.free_value,
            free_set: self.free_set,
        };
        proof {
            lemma_pow2_double(self.data_cap);
            lemma_all_empty(new.data@, 2 * slots);
            lemma_count_bounds(s, slots);
        }
        let mut n: u64 = 0;
        let ghost mut j: int = 0;
        while n < self.data_cap
            invariant
                self.laid_out(),
                self.data@ == s,
                slots == self.cap_mask + 1,
                self.size == self.cap + 1,
                n == 2 * j,
                0 <= j <= slots,
                new.laid_out(),
                new.cap_mask + 1 == 2 * slots,
                new.free_value == self.free_value,
                new.free_set == self.free_set,
                new.size == count_occupied(s, j),
                entries(new.data@, 2 * slots) == entries(s, j),
            decreases slots - j,
        {
            let key: u64 = self.data[n as usize];
            assert(key == key_at(s, j));
            proof {
                lemma_entries_extend(s, slots, j);
                lemma_count_monotone(s, j + 1, slots);
            }
            if key != FREE_KEY {
                let value: u64 = self.data[n as usize + 1];
                assert(value == val_at(s, j));
                new.place(key, value);
            }
            n += 2;
            proof {
                j = j + 1;
            }
        }
        *self = new;
    }

    /// The number of slots that hold a key.
    pub fn occupied_count(&self) -> (r: u64)
        requires
            self.wf(),
        ensures
            r == self@.occupied_count(),
    {
        self.size
    }

    /// The number of slots.
    pub fn slot_capacity(&self) -> (r: u64)
        requires
            self.wf(),
        ensures
            r == self@.slot_capacity,
    {
        self.cap_mask + 1
    }
}

} // verus!

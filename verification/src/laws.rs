//! Laws that relate the operations of the table, proved of its abstract
//! state. Each executable operation is specified as the function of the same
//! name on `TableView`, so each law holds of the table itself.

use vstd::prelude::*;
use crate::model::TableView;
use crate::model::FREE_KEY;
use crate::model::INITIAL_SLOTS;
use crate::model::load_limit;

verus! {

/// A lookup straight after an insertion finds the inserted value, for every
/// key, the key zero included.
pub proof fn law_insert_then_get(m: TableView, k: u64, v: u64)
    ensures
        m.insert(k, v).get(k) == (v, true),
{
}

/// A new table holds no key: every lookup reports `(0, false)`.
pub proof fn law_empty_has_no_key(k: u64)
    ensures
        TableView::empty().get(k) == (0u64, false),
        TableView::empty().valid(),
{
}

/// Once a non-zero key has been deleted, a lookup of it reports `(0, false)`,
/// whatever was inserted under it before.
pub proof fn law_delete_then_absent(m: TableView, k: u64)
    requires
        k != FREE_KEY,
    ensures
        m.delete(k).get(k) == (0u64, false),
{
}

/// A deletion straight after an insertion reports the inserted value.
pub proof fn law_insert_then_delete(m: TableView, k: u64, v: u64)
    ensures
        m.insert(k, v).removed(k) == (v, true),
{
}

/// A second insertion under the same key replaces the value and leaves the
/// number of occupied slots as the first insertion left it.
pub proof fn law_overwrite(m: TableView, k: u64, v1: u64, v2: u64)
    requires
        m.valid(),
    ensures
        m.insert(k, v1).insert(k, v2).get(k) == (v2, true),
        m.insert(k, v1).insert(k, v2).occupied_count() == m.insert(k, v1).occupied_count(),
{
    if k != FREE_KEY {
        let once = m.entries.insert(k, v1);
        assert(once.insert(k, v2).dom() =~= once.dom());
    }
}

/// The key zero: an insertion makes it present with its value; a deletion
/// reports that value with `true`; afterwards a lookup still reports the
/// value, but as absent.
pub proof fn law_reserved_key(m: TableView, v: u64)
    ensures
        m.insert(FREE_KEY, v).get(FREE_KEY) == (v, true),
        m.insert(FREE_KEY, v).removed(FREE_KEY) == (v, true),
        m.insert(FREE_KEY, v).delete(FREE_KEY).get(FREE_KEY) == (v, false),
        m.insert(FREE_KEY, v).occupied_count() == m.occupied_count(),
{
}

/// Deleting the key zero reports `true` even when it was never inserted.
pub proof fn law_reserved_delete_always_found(m: TableView)
    ensures
        m.removed(FREE_KEY) == (m.reserved_value, true),
        m.delete(FREE_KEY).get(FREE_KEY) == (m.reserved_value, false),
{
}

/// Deleting one key leaves every other key as it was: still found, with the
/// same value, if it was there.
pub proof fn law_delete_keeps_others(m: TableView, deleted: u64, k: u64)
    requires
        deleted != k,
    ensures
        m.delete(deleted).get(k) == m.get(k),
{
}

/// The table after the keys of `keys` have been deleted in order.
pub open spec fn delete_all(m: TableView, keys: Seq<u64>) -> TableView
    decreases keys.len(),
{
    if keys.len() == 0 {
        m
    } else {
        delete_all(m, keys.drop_last()).delete(keys.last())
    }
}

/// Whatever keys are deleted, in whatever order, a key that is not among
/// them is found afterwards exactly as before.
pub proof fn law_survivors(m: TableView, gone: Seq<u64>, k: u64)
    requires
        forall|i: int| 0 <= i < gone.len() ==> gone[i] != k,
    ensures
        delete_all(m, gone).get(k) == m.get(k),
    decreases gone.len(),
{
    if gone.len() > 0 {
        let front = gone.drop_last();
        assert forall|i: int| 0 <= i < front.len() implies front[i] != k by {
            assert(front[i] == gone[i]);
        }
        law_survivors(m, front, k);
        assert(gone.last() == gone[gone.len() - 1]);
    }
}

/// Inserting one key leaves every other key as it was, whether or not the
/// insertion made the table grow.
pub proof fn law_insert_keeps_others(m: TableView, inserted: u64, v: u64, k: u64)
    requires
        inserted != k,
    ensures
        m.insert(inserted, v).get(k) == m.get(k),
{
}

/// The capacity doubles exactly when an insertion takes the occupied slots
/// over the load limit, and is unchanged otherwise; no deletion changes it.
pub proof fn law_growth_trigger(m: TableView, k: u64, v: u64)
    requires
        m.valid(),
    ensures
        m.insert(k, v).slot_capacity == (if m.insert(k, v).occupied_count() > load_limit(
            m.slot_capacity,
        ) {
            2 * m.slot_capacity
        } else {
            m.slot_capacity
        }),
        m.delete(k).slot_capacity == m.slot_capacity,
{
}

/// The occupied slots stay within the load limit, and the key zero out of
/// the slots, through every insertion and deletion.
pub proof fn law_load_limit_kept(m: TableView, k: u64, v: u64)
    requires
        m.valid(),
        m.slot_capacity >= 16,
    ensures
        m.insert(k, v).valid(),
        m.insert(k, v).slot_capacity >= 16,
        m.delete(k).valid(),
{
    let c = m.slot_capacity;
    assert(load_limit(2 * c) >= 2 * load_limit(c));
    assert(load_limit(c) >= 14);
}

/// The table after the pairs of `pairs` have been inserted in order.
pub open spec fn insert_all(m: TableView, pairs: Seq<(u64, u64)>) -> TableView
    decreases pairs.len(),
{
    if pairs.len() == 0 {
        m
    } else {
        insert_all(m, pairs.drop_last()).insert(pairs.last().0, pairs.last().1)
    }
}

/// Whether the keys of `pairs` are non-zero and pairwise different.
pub open spec fn distinct_keys(pairs: Seq<(u64, u64)>) -> bool {
    &&& forall|i: int| 0 <= i < pairs.len() ==> (#[trigger] pairs[i]).0 != FREE_KEY
    &&& forall|i: int, j: int|
        0 <= i < j < pairs.len() ==> (#[trigger] pairs[i]).0 != (#[trigger] pairs[j]).0
}

/// Inserting distinct keys into a new table, up to one more than its load
/// limit: each occupies a slot of its own, each is found with its value, and
/// the capacity is the initial one until the last of them doubles it.
pub proof fn law_fill_new_table(pairs: Seq<(u64, u64)>)
    requires
        distinct_keys(pairs),
        pairs.len() <= load_limit(INITIAL_SLOTS as nat) + 1,
    ensures
        insert_all(TableView::empty(), pairs).valid(),
        insert_all(TableView::empty(), pairs).occupied_count() == pairs.len(),
        insert_all(TableView::empty(), pairs).slot_capacity == (if pairs.len() <= load_limit(
            INITIAL_SLOTS as nat,
        ) {
            INITIAL_SLOTS as nat
        } else {
            2 * (INITIAL_SLOTS as nat)
        }),
        forall|i: int|
            0 <= i < pairs.len() ==> insert_all(TableView::empty(), pairs).get(
                (#[trigger] pairs[i]).0,
            ) == (pairs[i].1, true),
        forall|k: u64|
            #[trigger] insert_all(TableView::empty(), pairs).entries.contains_key(k) ==> exists|
                i: int,
            |
                0 <= i < pairs.len() && (#[trigger] pairs[i]).0 == k,
    decreases pairs.len(),
{
    if pairs.len() > 0 {
        let front = pairs.drop_last();
        let k = pairs.last().0;
        let v = pairs.last().1;
        let before = insert_all(TableView::empty(), front);
        let after = insert_all(TableView::empty(), pairs);
        assert forall|i: int| 0 <= i < front.len() implies (#[trigger] front[i]) == pairs[i] by {}
        assert(distinct_keys(front)) by {
            assert forall|i: int| 0 <= i < front.len() implies (#[trigger] front[i]).0
                != FREE_KEY by {
                assert(front[i] == pairs[i]);
            }
            assert forall|i: int, j: int| 0 <= i < j < front.len() implies (#[trigger] front[i]).0
                != (#[trigger] front[j]).0 by {
                assert(front[i] == pairs[i]);
                assert(front[j] == pairs[j]);
            }
        }
        law_fill_new_table(front);
        assert(after == before.insert(k, v));
        assert(k != FREE_KEY) by {
            assert(pairs[pairs.len() - 1].0 != FREE_KEY);
        }
        if before.entries.contains_key(k) {
            let i = choose|i: int| 0 <= i < front.len() && (#[trigger] front[i]).0 == k;
            assert(front[i] == pairs[i]);
            assert(pairs[i].0 != pairs[pairs.len() - 1].0);
            assert(false);
        }
        assert forall|i: int| 0 <= i < pairs.len() implies after.get((#[trigger] pairs[i]).0) == (
            pairs[i].1,
            true,
        ) by {
            if i < front.len() {
                assert(front[i] == pairs[i]);
                assert(before.get(front[i].0) == (front[i].1, true));
                assert(pairs[i].0 != pairs[pairs.len() - 1].0);
            }
        }
        assert forall|q: u64| #[trigger] after.entries.contains_key(q) implies exists|i: int|
            0 <= i < pairs.len() && (#[trigger] pairs[i]).0 == q by {
            if q == k {
                assert(pairs[pairs.len() - 1].0 == q);
            } else {
                assert(before.entries.contains_key(q));
                let i = choose|i: int| 0 <= i < front.len() && (#[trigger] front[i]).0 == q;
                assert(pairs[i].0 == q);
            }
        }
    }
}

} // verus!

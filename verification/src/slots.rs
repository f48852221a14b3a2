//! The slot array as a mathematical sequence: what it means for keys to be
//! laid out so that linear probing finds them, and the lemmas that the table
//! operations rest on.
//!
//! A storage sequence of `2 * n` words holds `n` slots; slot `j` is the key at
//! word `2 * j` and the value at word `2 * j + 1`. A key of zero marks an
//! empty slot.

use vstd::prelude::*;
use crate::hashing::home_slot;
use crate::hashing::lemma_home_in_range;

verus! {

pub open spec fn key_at(s: Seq<u64>, j: int) -> u64 {
    s[2 * j]
}

pub open spec fn val_at(s: Seq<u64>, j: int) -> u64 {
    s[2 * j + 1]
}

/// Whether `x` lies on the cyclic walk that starts at `a` and stops just
/// before `b`. The walk from a position to itself is empty.
pub open spec fn in_arc(a: int, x: int, b: int) -> bool {
    if a <= b {
        a <= x < b
    } else {
        a <= x || x < b
    }
}

/// The number of steps on the cyclic walk from `a` to `b` among `n` positions.
pub open spec fn arc_len(a: int, b: int, n: int) -> int {
    if a <= b {
        b - a
    } else {
        b - a + n
    }
}

/// The position after `j` among `n` positions, wrapping to zero.
pub open spec fn succ(j: int, n: int) -> int {
    if j + 1 == n {
        0
    } else {
        j + 1
    }
}

/// No key occupies two of the first `n` slots.
pub open spec fn keys_distinct(s: Seq<u64>, n: int) -> bool {
    forall|i: int, j: int|
        #![trigger key_at(s, i), key_at(s, j)]
        0 <= i < n && 0 <= j < n && i != j && key_at(s, i) != 0 ==> key_at(s, i) != key_at(s, j)
}

/// Every slot on the walk from a key's home slot to the slot that holds it is
/// occupied, except possibly the slot `hole`. With `hole` outside the table
/// this is the invariant under which probing finds every key.
pub open spec fn chains_hold(s: Seq<u64>, m: u64, hole: int) -> bool {
    forall|j: int, x: int|
        #![trigger key_at(s, j), key_at(s, x)]
        0 <= j <= m && 0 <= x <= m && key_at(s, j) != 0 && x != hole && in_arc(
            home_slot(key_at(s, j), m),
            x,
            j,
        ) ==> key_at(s, x) != 0
}

/// The number of occupied slots among the first `n`.
pub open spec fn count_occupied(s: Seq<u64>, n: int) -> int
    decreases n,
{
    if n <= 0 {
        0
    } else {
        count_occupied(s, n - 1) + if key_at(s, n - 1) != 0 {
            1int
        } else {
            0int
        }
    }
}

/// Whether one of the first `n` slots holds `k`.
pub open spec fn has_key(s: Seq<u64>, n: int, k: u64) -> bool {
    exists|j: int| 0 <= j < n && #[trigger] key_at(s, j) == k
}

/// A slot among the first `n` that holds `k`, if there is one.
pub open spec fn slot_of(s: Seq<u64>, n: int, k: u64) -> int {
    choose|j: int| 0 <= j < n && #[trigger] key_at(s, j) == k
}

/// The key-value pairs held in the first `n` slots.
pub open spec fn entries(s: Seq<u64>, n: int) -> Map<u64, u64> {
    Map::new(|k: u64| k != 0 && has_key(s, n, k), |k: u64| val_at(s, slot_of(s, n, k)))
}

/// The sequence after slot `j` has been given key `k` and value `v`.
pub open spec fn with_slot(s: Seq<u64>, j: int, k: u64, v: u64) -> Seq<u64> {
    s.update(2 * j, k).update(2 * j + 1, v)
}

/// The sequence after the pair in slot `c` has been moved to slot `l`.
pub open spec fn moved(s: Seq<u64>, l: int, c: int) -> Seq<u64> {
    with_slot(s, l, key_at(s, c), val_at(s, c)).update(2 * c, 0)
}

pub proof fn lemma_count_bounds(s: Seq<u64>, n: int)
    requires
        0 <= n,
    ensures
        0 <= count_occupied(s, n) <= n,
    decreases n,
{
    if n > 0 {
        lemma_count_bounds(s, n - 1);
    }
}

pub proof fn lemma_count_monotone(s: Seq<u64>, a: int, b: int)
    requires
        0 <= a <= b,
    ensures
        count_occupied(s, a) <= count_occupied(s, b),
    decreases b,
{
    if a < b {
        lemma_count_monotone(s, a, b - 1);
    }
}

/// Fewer occupied slots than slots: one of them is empty.
pub proof fn lemma_find_empty(s: Seq<u64>, n: int) -> (e: int)
    requires
        0 <= n,
        count_occupied(s, n) < n,
    ensures
        0 <= e < n,
        key_at(s, e) == 0,
    decreases n,
{
    if key_at(s, n - 1) == 0 {
        n - 1
    } else {
        lemma_find_empty(s, n - 1)
    }
}

/// Where two sequences agree on every key but that of slot `j`, their counts
/// differ by what slot `j` contributes.
pub proof fn lemma_count_update(s: Seq<u64>, t: Seq<u64>, n: int, j: int)
    requires
        0 <= j,
        0 <= n,
        forall|i: int| 0 <= i < n && i != j ==> key_at(t, i) == #[trigger] key_at(s, i),
    ensures
        count_occupied(t, n) == count_occupied(s, n) + (if j < n {
            (if key_at(t, j) != 0 {
                1int
            } else {
                0int
            }) - (if key_at(s, j) != 0 {
                1int
            } else {
                0int
            })
        } else {
            0int
        }),
    decreases n,
{
    if n > 0 {
        lemma_count_update(s, t, n - 1, j);
    }
}

/// Two spare slots, one of them the empty slot `hole`: another slot is empty.
pub proof fn lemma_find_other_empty(s: Seq<u64>, n: int, hole: int) -> (e: int)
    requires
        0 <= hole < n,
        s.len() == 2 * n,
        key_at(s, hole) == 0,
        count_occupied(s, n) + 1 < n,
    ensures
        0 <= e < n,
        e != hole,
        key_at(s, e) == 0,
{
    let t = s.update(2 * hole, 1);
    assert forall|i: int| 0 <= i < n && i != hole implies key_at(t, i) == #[trigger] key_at(
        s,
        i,
    ) by {}
    lemma_count_update(s, t, n, hole);
    let e = lemma_find_empty(t, n);
    assert(key_at(t, e) == 0);
    e
}

/// With distinct keys, the pair in an occupied slot is an entry.
pub proof fn lemma_entry_at(s: Seq<u64>, n: int, j: int)
    requires
        keys_distinct(s, n),
        0 <= j < n,
        key_at(s, j) != 0,
    ensures
        has_key(s, n, key_at(s, j)),
        slot_of(s, n, key_at(s, j)) == j,
        entries(s, n).contains_key(key_at(s, j)),
        entries(s, n)[key_at(s, j)] == val_at(s, j),
{
    let k = key_at(s, j);
    let i = slot_of(s, n, k);
    assert(0 <= i < n && key_at(s, i) == k);
}

/// Every entry sits in the slot that `slot_of` names.
pub proof fn lemma_entry_slot(s: Seq<u64>, n: int, k: u64)
    requires
        entries(s, n).contains_key(k),
    ensures
        k != 0,
        0 <= slot_of(s, n, k) < n,
        key_at(s, slot_of(s, n, k)) == k,
        entries(s, n)[k] == val_at(s, slot_of(s, n, k)),
{
}

/// A sequence of empty slots holds no entry.
pub proof fn lemma_all_empty(s: Seq<u64>, n: int)
    requires
        0 <= n,
        forall|j: int| 0 <= j < n ==> #[trigger] key_at(s, j) == 0,
    ensures
        count_occupied(s, n) == 0,
        entries(s, n) =~= Map::<u64, u64>::empty(),
    decreases n,
{
    if n > 0 {
        lemma_all_empty(s, n - 1);
    }
}

/// Writing a value into the slot that holds `k`, or `k` and a value into an
/// empty slot when no slot holds `k`, yields the entries with `k` bound to the
/// value, and keeps the keys distinct.
pub proof fn lemma_put(s: Seq<u64>, n: int, j: int, k: u64, v: u64)
    requires
        s.len() >= 2 * n,
        keys_distinct(s, n),
        0 <= j < n,
        k != 0,
        key_at(s, j) == k || (key_at(s, j) == 0 && !has_key(s, n, k)),
    ensures
        keys_distinct(with_slot(s, j, k, v), n),
        entries(with_slot(s, j, k, v), n) =~= entries(s, n).insert(k, v),
        count_occupied(with_slot(s, j, k, v), n) == count_occupied(s, n) + (if key_at(s, j) == 0 {
            1int
        } else {
            0int
        }),
{
    let t = with_slot(s, j, k, v);
    assert(key_at(t, j) == k);
    assert(val_at(t, j) == v);
    assert forall|i: int| 0 <= i < n && i != j implies key_at(t, i) == #[trigger] key_at(s, i)
        && val_at(t, i) == val_at(s, i) by {}
    lemma_count_update(s, t, n, j);
    assert forall|a: int, b: int|
        #![trigger key_at(t, a), key_at(t, b)]
        0 <= a < n && 0 <= b < n && a != b && key_at(t, a) != 0 implies key_at(t, a) != key_at(
        t,
        b,
    ) by {
        if a != j && b != j {
            assert(key_at(s, a) != key_at(s, b));
        } else if a == j {
            assert(key_at(s, b) == key_at(t, b));
            if key_at(s, j) == k {
                assert(key_at(s, a) != key_at(s, b));
            }
        } else {
            assert(key_at(s, a) == key_at(t, a));
            if key_at(s, j) == k {
                assert(key_at(s, a) != key_at(s, b));
            }
        }
    }
    lemma_entry_at(t, n, j);
    let goal = entries(s, n).insert(k, v);
    assert forall|q: u64| #[trigger] entries(t, n).dom().contains(q) == goal.dom().contains(q) by {
        if entries(t, n).dom().contains(q) && q != k {
            lemma_entry_slot(t, n, q);
            lemma_entry_at(s, n, slot_of(t, n, q));
        }
        if goal.dom().contains(q) && q != k {
            lemma_entry_slot(s, n, q);
            lemma_entry_at(t, n, slot_of(s, n, q));
        }
    }
    assert forall|q: u64| #[trigger] entries(t, n).dom().contains(q) implies entries(t, n)[q]
        == goal[q] by {
        if q != k {
            lemma_entry_slot(t, n, q);
            lemma_entry_at(s, n, slot_of(t, n, q));
        }
    }
    assert(entries(t, n) =~= goal);
}

/// Emptying the slot that holds `k` removes `k` from the entries, keeps the
/// keys distinct, and leaves every chain intact but for the new hole.
pub proof fn lemma_clear(s: Seq<u64>, m: u64, j: int)
    requires
        s.len() == 2 * (m + 1),
        keys_distinct(s, m + 1),
        chains_hold(s, m, -1),
        0 <= j <= m,
        key_at(s, j) != 0,
    ensures
        keys_distinct(s.update(2 * j, 0), m + 1),
        chains_hold(s.update(2 * j, 0), m, j),
        entries(s.update(2 * j, 0), m + 1) =~= entries(s, m + 1).remove(key_at(s, j)),
        count_occupied(s.update(2 * j, 0), m + 1) == count_occupied(s, m + 1) - 1,
{
    let n = m + 1;
    let k = key_at(s, j);
    let t = s.update(2 * j, 0);
    assert(key_at(t, j) == 0);
    assert forall|i: int| 0 <= i < n && i != j implies key_at(t, i) == #[trigger] key_at(s, i)
        && val_at(t, i) == val_at(s, i) by {}
    lemma_count_update(s, t, n, j);
    assert forall|a: int, b: int|
        #![trigger key_at(t, a), key_at(t, b)]
        0 <= a < n && 0 <= b < n && a != b && key_at(t, a) != 0 implies key_at(t, a) != key_at(
        t,
        b,
    ) by {
        assert(key_at(s, a) == key_at(t, a));
        assert(key_at(s, a) != key_at(s, b));
    }
    assert forall|a: int, x: int|
        #![trigger key_at(t, a), key_at(t, x)]
        0 <= a <= m && 0 <= x <= m && key_at(t, a) != 0 && x != j && in_arc(
            home_slot(key_at(t, a), m),
            x,
            a,
        ) implies key_at(t, x) != 0 by {
        assert(key_at(s, a) == key_at(t, a));
        assert(key_at(s, x) == key_at(t, x));
    }
    let goal = entries(s, n).remove(k);
    assert forall|q: u64| #[trigger] entries(t, n).dom().contains(q) == goal.dom().contains(q) by {
        if entries(t, n).dom().contains(q) {
            lemma_entry_slot(t, n, q);
            lemma_entry_at(s, n, slot_of(t, n, q));
        }
        if goal.dom().contains(q) {
            lemma_entry_slot(s, n, q);
            lemma_entry_at(t, n, slot_of(s, n, q));
        }
    }
    assert forall|q: u64| #[trigger] entries(t, n).dom().contains(q) implies entries(t, n)[q]
        == goal[q] by {
        lemma_entry_slot(t, n, q);
        lemma_entry_at(s, n, slot_of(t, n, q));
    }
    assert(entries(t, n) =~= goal);
}

/// A probe for `k` that met only other keys and then an empty slot shows that
/// no slot holds `k`.
pub proof fn lemma_absent(s: Seq<u64>, m: u64, k: u64, j: int)
    requires
        chains_hold(s, m, -1),
        k != 0,
        0 <= j <= m,
        key_at(s, j) == 0,
        forall|x: int|
            0 <= x <= m && in_arc(home_slot(k, m), x, j) ==> #[trigger] key_at(s, x) != k,
    ensures
        !has_key(s, m + 1, k),
{
    lemma_home_in_range(k, m);
    if has_key(s, m + 1, k) {
        let i = slot_of(s, m + 1, k);
        assert(key_at(s, i) == k);
        assert(key_at(s, j) == 0);
        assert(!in_arc(home_slot(k, m), j, i));
        assert(!in_arc(home_slot(k, m), i, j));
        assert(false);
    }
}

/// Moving a pair back into the hole that its probe walk passes through keeps
/// the entries, the count and the distinctness of keys, and leaves every
/// chain intact but for the slot it came from.
pub proof fn lemma_move(s: Seq<u64>, m: u64, l: int, c: int)
    requires
        s.len() == 2 * (m + 1),
        keys_distinct(s, m + 1),
        chains_hold(s, m, l),
        0 <= l <= m,
        0 <= c <= m,
        l != c,
        key_at(s, l) == 0,
        key_at(s, c) != 0,
        in_arc(home_slot(key_at(s, c), m), l, c),
    ensures
        keys_distinct(moved(s, l, c), m + 1),
        chains_hold(moved(s, l, c), m, c),
        key_at(moved(s, l, c), c) == 0,
        entries(moved(s, l, c), m + 1) =~= entries(s, m + 1),
        count_occupied(moved(s, l, c), m + 1) == count_occupied(s, m + 1),
{
    let n = m + 1;
    let k = key_at(s, c);
    let v = val_at(s, c);
    let u = with_slot(s, l, k, v);
    let t = moved(s, l, c);
    lemma_home_in_range(k, m);
    assert(key_at(t, l) == k && val_at(t, l) == v && key_at(t, c) == 0);
    assert forall|i: int| 0 <= i < n && i != l implies key_at(u, i) == #[trigger] key_at(s, i) by {}
    assert forall|i: int| 0 <= i < n && i != c implies key_at(t, i) == #[trigger] key_at(u, i) by {}
    assert forall|i: int| 0 <= i < n && i != c && i != l implies key_at(t, i) == #[trigger] key_at(
        s,
        i,
    ) && val_at(t, i) == val_at(s, i) by {}
    lemma_count_update(s, u, n, l);
    lemma_count_update(u, t, n, c);
    assert forall|a: int, b: int|
        #![trigger key_at(t, a), key_at(t, b)]
        0 <= a < n && 0 <= b < n && a != b && key_at(t, a) != 0 implies key_at(t, a) != key_at(
        t,
        b,
    ) by {
        if a == l {
            if b != c {
                assert(key_at(s, b) == key_at(t, b));
                assert(key_at(s, c) != key_at(s, b));
            }
        } else if b == l {
            assert(key_at(s, a) == key_at(t, a));
            assert(key_at(s, a) != key_at(s, c));
        } else {
            assert(key_at(s, a) == key_at(t, a));
            if b != c {
                assert(key_at(s, b) == key_at(t, b));
            }
            assert(key_at(s, a) != key_at(s, b));
        }
    }
    assert forall|a: int, x: int|
        #![trigger key_at(t, a), key_at(t, x)]
        0 <= a <= m && 0 <= x <= m && key_at(t, a) != 0 && x != c && in_arc(
            home_slot(key_at(t, a), m),
            x,
            a,
        ) implies key_at(t, x) != 0 by {
        if x != l {
            assert(key_at(s, x) == key_at(t, x));
            if a == l {
                assert(in_arc(home_slot(k, m), x, c));
                assert(key_at(s, c) != 0 ==> key_at(s, x) != 0);
            } else {
                assert(key_at(s, a) == key_at(t, a));
                assert(key_at(s, a) != 0 ==> key_at(s, x) != 0);
            }
        }
    }
    assert forall|q: u64| #[trigger] entries(t, n).dom().contains(q) == entries(s, n).dom().contains(
        q,
    ) by {
        if entries(t, n).dom().contains(q) {
            lemma_entry_slot(t, n, q);
            let i = slot_of(t, n, q);
            if i == l {
                lemma_entry_at(s, n, c);
            } else {
                lemma_entry_at(s, n, i);
            }
        }
        if entries(s, n).dom().contains(q) {
            lemma_entry_slot(s, n, q);
            let i = slot_of(s, n, q);
            if i == c {
                lemma_entry_at(t, n, l);
            } else {
                lemma_entry_at(t, n, i);
            }
        }
    }
    assert forall|q: u64| #[trigger] entries(t, n).dom().contains(q) implies entries(t, n)[q]
        == entries(s, n)[q] by {
        lemma_entry_slot(t, n, q);
        let i = slot_of(t, n, q);
        if i == l {
            lemma_entry_at(s, n, c);
        } else {
            lemma_entry_at(s, n, i);
        }
    }
    assert(entries(t, n) =~= entries(s, n));
}

/// Once the scan from the hole at `l` reaches an empty slot at `c`, having
/// passed only pairs whose probe walks avoid the hole, no chain needs the
/// hole: every chain is intact.
pub proof fn lemma_close_gap(s: Seq<u64>, m: u64, l: int, c: int)
    requires
        chains_hold(s, m, l),
        0 <= l <= m,
        0 <= c <= m,
        l != c,
        key_at(s, l) == 0,
        key_at(s, c) == 0,
        forall|x: int|
            0 <= x <= m && in_arc(succ(l, m + 1), x, c) ==> #[trigger] key_at(s, x) != 0
                && !in_arc(home_slot(key_at(s, x), m), l, x),
    ensures
        chains_hold(s, m, -1),
{
    assert forall|j: int, x: int|
        #![trigger key_at(s, j), key_at(s, x)]
        0 <= j <= m && 0 <= x <= m && key_at(s, j) != 0 && x != -1 && in_arc(
            home_slot(key_at(s, j), m),
            x,
            j,
        ) implies key_at(s, x) != 0 by {
        lemma_home_in_range(key_at(s, j), m);
        if x == l {
            if in_arc(succ(l, m + 1), j, c) {
                assert(!in_arc(home_slot(key_at(s, j), m), l, j));
            } else {
                assert(in_arc(home_slot(key_at(s, j), m), c, j));
                assert(key_at(s, j) != 0 ==> key_at(s, c) != 0);
            }
        }
    }
}

/// The entries of the first `j + 1` slots are those of the first `j`,
/// together with the pair in slot `j` if it is occupied.
pub proof fn lemma_entries_extend(s: Seq<u64>, n: int, j: int)
    requires
        s.len() >= 2 * n,
        keys_distinct(s, n),
        0 <= j < n,
    ensures
        keys_distinct(s, j + 1),
        keys_distinct(s, j),
        key_at(s, j) == 0 ==> entries(s, j + 1) =~= entries(s, j),
        key_at(s, j) != 0 ==> !entries(s, j).contains_key(key_at(s, j)) && entries(s, j + 1)
            =~= entries(s, j).insert(key_at(s, j), val_at(s, j)),
{
    let k = key_at(s, j);
    let a = entries(s, j);
    let b = entries(s, j + 1);
    if a.contains_key(k) {
        lemma_entry_slot(s, j, k);
        assert(key_at(s, slot_of(s, j, k)) == key_at(s, j));
    }
    let goal = if k == 0 {
        a
    } else {
        a.insert(k, val_at(s, j))
    };
    if k != 0 {
        lemma_entry_at(s, j + 1, j);
    }
    assert forall|q: u64| #[trigger] b.dom().contains(q) == goal.dom().contains(q) by {
        if b.dom().contains(q) && q != k {
            lemma_entry_slot(s, j + 1, q);
            lemma_entry_at(s, j, slot_of(s, j + 1, q));
        }
        if goal.dom().contains(q) && q != k {
            lemma_entry_slot(s, j, q);
            lemma_entry_at(s, j + 1, slot_of(s, j, q));
        }
    }
    assert forall|q: u64| #[trigger] b.dom().contains(q) implies b[q] == goal[q] by {
        if q != k {
            lemma_entry_slot(s, j + 1, q);
            lemma_entry_at(s, j, slot_of(s, j + 1, q));
        }
    }
    assert(b =~= goal);
}

/// Filling the slot at which a probe for `k` stopped keeps every chain
/// intact.
pub proof fn lemma_put_chains(s: Seq<u64>, m: u64, j: int, k: u64, v: u64)
    requires
        s.len() == 2 * (m + 1),
        chains_hold(s, m, -1),
        0 <= j <= m,
        k != 0,
        key_at(s, j) == k || key_at(s, j) == 0,
        forall|x: int| 0 <= x <= m && in_arc(home_slot(k, m), x, j) ==> #[trigger] key_at(s, x) != 0,
    ensures
        chains_hold(with_slot(s, j, k, v), m, -1),
{
    let t = with_slot(s, j, k, v);
    assert(key_at(t, j) == k);
    assert forall|a: int, x: int|
        #![trigger key_at(t, a), key_at(t, x)]
        0 <= a <= m && 0 <= x <= m && key_at(t, a) != 0 && x != -1 && in_arc(
            home_slot(key_at(t, a), m),
            x,
            a,
        ) implies key_at(t, x) != 0 by {
        if x != j {
            assert(key_at(t, x) == key_at(s, x));
            if a != j {
                assert(key_at(t, a) == key_at(s, a));
                assert(key_at(s, a) != 0 ==> key_at(s, x) != 0);
            }
        }
    }
}

} // verus!

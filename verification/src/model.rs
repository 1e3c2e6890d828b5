//! Abstract model of the name registries.
//!
//! Both registries — the fixed-width one and the unbounded one — are
//! described by the same ghost state: the name/position entries in
//! insertion order, the materialised slots of the underlying bit store,
//! and the next position to assign.  The spec functions here define how
//! each registry operation transforms that state; the registry methods
//! promise exactly these transformations, and the laws at the bottom
//! are proved once for both registries.

use vstd::prelude::*;

verus! {

/// Ghost state of a name registry.
#[verifier::ext_equal]
pub ghost struct RegView {
    /// Name/position pairs, oldest first.
    pub entries: Seq<(Seq<char>, nat)>,
    /// The slots that the underlying bit store materialises.
    pub bits: Seq<bool>,
    /// The next position to assign; it only grows.
    pub next: nat,
}

/// Whether the registry knows the name.
pub open spec fn rv_has(v: RegView, n: Seq<char>) -> bool {
    exists|i: int| 0 <= i < v.entries.len() && v.entries[i].0 == n
}

/// The index of the entry holding the name (unique under `rv_wf`).
pub open spec fn rv_idx(v: RegView, n: Seq<char>) -> int {
    choose|i: int| 0 <= i < v.entries.len() && v.entries[i].0 == n
}

/// The position assigned to the name.
pub open spec fn rv_pos(v: RegView, n: Seq<char>) -> nat {
    v.entries[rv_idx(v, n)].1
}

/// The slot at a position; slots past the materialised range read as
/// `false`.
pub open spec fn rv_bit(v: RegView, p: nat) -> bool {
    p < v.bits.len() && v.bits[p as int]
}

/// The boolean value of a name.
pub open spec fn rv_val(v: RegView, n: Seq<char>) -> bool {
    rv_bit(v, rv_pos(v, n))
}

/// The slots after growing the materialised range, byte-packed, so that
/// it covers position `p`; a position already covered changes nothing.
pub open spec fn grow_bits(bits: Seq<bool>, p: nat) -> Seq<bool> {
    if p < bits.len() {
        bits
    } else {
        Seq::new((p / 8 + 1) * 8, |i: int| 0 <= i < bits.len() && bits[i])
    }
}

/// Whether a `set` of the name succeeds: it updates a known name in
/// place, or allocates the next position when one is free.
pub open spec fn rv_set_ok(v: RegView, cap: nat, n: Seq<char>) -> bool {
    rv_has(v, n) || v.next < cap
}

/// The registry state after `set(n, val)`.  A known name keeps its
/// position; a fresh name takes position `next`; on capacity failure
/// the state is unchanged.
pub open spec fn rv_set(v: RegView, cap: nat, n: Seq<char>, val: bool) -> RegView {
    if rv_has(v, n) {
        RegView {
            entries: v.entries,
            bits: grow_bits(v.bits, rv_pos(v, n)).update(rv_pos(v, n) as int, val),
            next: v.next,
        }
    } else if v.next < cap {
        RegView {
            entries: v.entries.push((n, v.next)),
            bits: grow_bits(v.bits, v.next).update(v.next as int, val),
            next: v.next + 1,
        }
    } else {
        v
    }
}

/// The registry state after `toggle(n)` on a known name.
pub open spec fn rv_toggle(v: RegView, cap: nat, n: Seq<char>) -> RegView {
    rv_set(v, cap, n, !rv_val(v, n))
}

/// The registry state after `delete(n)`: the slot is cleared and the
/// entry removed; the assigned position is not reclaimed.
pub open spec fn rv_delete(v: RegView, n: Seq<char>) -> RegView {
    if rv_has(v, n) {
        RegView {
            entries: v.entries.remove(rv_idx(v, n)),
            bits: grow_bits(v.bits, rv_pos(v, n)).update(rv_pos(v, n) as int, false),
            next: v.next,
        }
    } else {
        v
    }
}

/// Well-formedness of a registry of capacity `cap`: the next position
/// never exceeds the capacity, every assigned position lies below it,
/// and names as well as positions are pairwise distinct.
pub open spec fn rv_wf(v: RegView, cap: nat) -> bool {
    &&& v.next <= cap
    &&& v.entries.len() <= v.next
    &&& forall|i: int| 0 <= i < v.entries.len() ==> (#[trigger] v.entries[i]).1 < v.next
    &&& forall|i: int, j: int|
        0 <= i < j < v.entries.len() ==> v.entries[i].0 != v.entries[j].0 && v.entries[i].1
            != v.entries[j].1
}

/// The registry state after the first `k` steps of a mass assignment
/// over the given name and value lists.
pub open spec fn rv_mass(
    v: RegView,
    cap: nat,
    names: Seq<Seq<char>>,
    vals: Seq<bool>,
    k: nat,
) -> RegView
    decreases k,
{
    if k == 0 {
        v
    } else {
        rv_set(rv_mass(v, cap, names, vals, (k - 1) as nat), cap, names[k - 1], vals[k - 1])
    }
}

/// The first step of a mass assignment, from step `k` on, that fails
/// for capacity; `None` when every step through `count` succeeds.
pub open spec fn rv_mass_fail(
    v: RegView,
    cap: nat,
    names: Seq<Seq<char>>,
    vals: Seq<bool>,
    count: nat,
    k: nat,
) -> Option<nat>
    decreases count - k,
{
    if k >= count {
        None
    } else if !rv_set_ok(rv_mass(v, cap, names, vals, k), cap, names[k as int]) {
        Some(k)
    } else {
        rv_mass_fail(v, cap, names, vals, count, k + 1)
    }
}

/// The registry state after toggling the first `k` given names.
pub open spec fn rv_toggles(v: RegView, cap: nat, names: Seq<Seq<char>>, k: nat) -> RegView
    decreases k,
{
    if k == 0 {
        v
    } else {
        rv_toggle(rv_toggles(v, cap, names, (k - 1) as nat), cap, names[k - 1])
    }
}

/// The first of the given names, from index `k` on, that the registry
/// does not know; `None` when it knows them all.
pub open spec fn first_missing(v: RegView, names: Seq<Seq<char>>, count: nat, k: nat) -> Option<nat>
    decreases count - k,
{
    if k >= count {
        None
    } else if !rv_has(v, names[k as int]) {
        Some(k)
    } else {
        first_missing(v, names, count, k + 1)
    }
}

/// Reading any position that a growth step left uncovered, or covered
/// with padding, gives the old sparse value; the grown range always
/// covers the requested position.
pub proof fn lemma_grow_bits(bits: Seq<bool>, p: nat)
    ensures
        p < grow_bits(bits, p).len(),
        grow_bits(bits, p).len() >= bits.len(),
        forall|q: nat| q != p ==> rv_bit_raw(grow_bits(bits, p), q) == rv_bit_raw(bits, q),
        rv_bit_raw(grow_bits(bits, p), p) == rv_bit_raw(bits, p),
{
    if p >= bits.len() {
        vstd::arithmetic::div_mod::lemma_fundamental_div_mod(p as int, 8);
    }
}

/// The slot at a position of a raw slot sequence; positions past the
/// end read as `false`.
pub open spec fn rv_bit_raw(bits: Seq<bool>, p: nat) -> bool {
    p < bits.len() && bits[p as int]
}

/// Under well-formedness every name determines its entry: `rv_idx`
/// picks exactly the index of that entry.
pub proof fn lemma_idx_unique(v: RegView, cap: nat, i: int)
    requires
        rv_wf(v, cap),
        0 <= i < v.entries.len(),
    ensures
        rv_has(v, v.entries[i].0),
        rv_idx(v, v.entries[i].0) == i,
        rv_pos(v, v.entries[i].0) == v.entries[i].1,
{
    let n = v.entries[i].0;
    assert(rv_has(v, n));
    let c = rv_idx(v, n);
    assert(0 <= c < v.entries.len() && v.entries[c].0 == n);
    if c < i {
        assert(v.entries[c].0 != v.entries[i].0);
    }
    if i < c {
        assert(v.entries[i].0 != v.entries[c].0);
    }
}

/// Law: a successful `set` stores exactly the given value under the
/// given name; every other name keeps its value, and no other name
/// appears or disappears.
pub proof fn lemma_registry_set_get(v: RegView, cap: nat, n: Seq<char>, val: bool)
    requires
        rv_wf(v, cap),
        rv_set_ok(v, cap, n),
    ensures
        rv_has(rv_set(v, cap, n, val), n),
        rv_val(rv_set(v, cap, n, val), n) == val,
        forall|m: Seq<char>| m != n ==> rv_has(rv_set(v, cap, n, val), m) == rv_has(v, m),
        forall|m: Seq<char>|
            m != n && rv_has(v, m) ==> rv_val(rv_set(v, cap, n, val), m) == rv_val(v, m),
{
    let v2 = rv_set(v, cap, n, val);
    lemma_set_preserves_wf(v, cap, n, val);
    if rv_has(v, n) {
        let i = rv_idx(v, n);
        assert(0 <= i < v.entries.len() && v.entries[i].0 == n);
        lemma_idx_unique(v2, cap, i);
        lemma_grow_bits(v.bits, rv_pos(v, n));
        assert(rv_val(v2, n) == val);
        assert forall|m: Seq<char>| m != n && rv_has(v, m) implies rv_val(v2, m) == rv_val(
            v,
            m,
        ) by {
            let j = rv_idx(v, m);
            assert(0 <= j < v.entries.len() && v.entries[j].0 == m);
            lemma_idx_unique(v2, cap, j);
            assert(j != i);
            assert(v.entries[j].1 != v.entries[i].1);
        }
    } else {
        let i = v.entries.len() as int;
        assert(v2.entries[i].0 == n);
        lemma_idx_unique(v2, cap, i);
        lemma_grow_bits(v.bits, v.next);
        assert(rv_val(v2, n) == val);
        assert forall|m: Seq<char>| m != n implies rv_has(v2, m) == rv_has(v, m) by {
            if rv_has(v2, m) {
                let j = rv_idx(v2, m);
                assert(0 <= j < v2.entries.len() && v2.entries[j].0 == m);
                assert(j != i);
                assert(v.entries[j].0 == m);
            }
            if rv_has(v, m) {
                let j = rv_idx(v, m);
                assert(v2.entries[j].0 == m);
            }
        }
        assert forall|m: Seq<char>| m != n && rv_has(v, m) implies rv_val(v2, m) == rv_val(
            v,
            m,
        ) by {
            let j = rv_idx(v, m);
            assert(0 <= j < v.entries.len() && v.entries[j].0 == m);
            lemma_idx_unique(v2, cap, j);
            assert(v.entries[j].1 < v.next);
        }
    }
}

/// Law: every registry operation preserves well-formedness.
pub proof fn lemma_set_preserves_wf(v: RegView, cap: nat, n: Seq<char>, val: bool)
    requires
        rv_wf(v, cap),
    ensures
        rv_wf(rv_set(v, cap, n, val), cap),
{
    let v2 = rv_set(v, cap, n, val);
    if !rv_has(v, n) && v.next < cap {
        assert forall|i: int, j: int| 0 <= i < j < v2.entries.len() implies v2.entries[i].0
            != v2.entries[j].0 && v2.entries[i].1 != v2.entries[j].1 by {
            if j == v.entries.len() as int {
                assert(v2.entries[j].0 == n && v2.entries[j].1 == v.next);
                assert(v2.entries[i] == v.entries[i]);
                if v.entries[i].0 == n {
                    assert(rv_has(v, n));
                }
            }
        }
    }
}

/// Law: deletion preserves well-formedness.
pub proof fn lemma_delete_preserves_wf(v: RegView, cap: nat, n: Seq<char>)
    requires
        rv_wf(v, cap),
    ensures
        rv_wf(rv_delete(v, n), cap),
{
    let v2 = rv_delete(v, n);
    if rv_has(v, n) {
        let k = rv_idx(v, n);
        v.entries.remove_ensures(k);
        assert forall|i: int, j: int| 0 <= i < j < v2.entries.len() implies v2.entries[i].0
            != v2.entries[j].0 && v2.entries[i].1 != v2.entries[j].1 by {
            let i0 = if i < k {
                i
            } else {
                i + 1
            };
            let j0 = if j < k {
                j
            } else {
                j + 1
            };
            assert(v2.entries[i] == v.entries[i0]);
            assert(v2.entries[j] == v.entries[j0]);
        }
        assert forall|i: int| 0 <= i < v2.entries.len() implies (#[trigger] v2.entries[i]).1
            < v2.next by {
            let i0 = if i < k {
                i
            } else {
                i + 1
            };
            assert(v2.entries[i] == v.entries[i0]);
        }
    }
}

/// Law: after `delete(n)` the name no longer exists, its slot reads
/// `false` through its old position, and every other name keeps its
/// value.  Together with `lemma_registry_set_get` this is the
/// add/exists/get/delete round trip.
pub proof fn lemma_registry_delete(v: RegView, cap: nat, n: Seq<char>)
    requires
        rv_wf(v, cap),
    ensures
        !rv_has(rv_delete(v, n), n),
        forall|m: Seq<char>| m != n ==> rv_has(rv_delete(v, n), m) == rv_has(v, m),
        forall|m: Seq<char>|
            m != n && rv_has(v, m) ==> rv_val(rv_delete(v, n), m) == rv_val(v, m),
{
    let v2 = rv_delete(v, n);
    if rv_has(v, n) {
        let k = rv_idx(v, n);
        v.entries.remove_ensures(k);
        lemma_grow_bits(v.bits, rv_pos(v, n));
        assert forall|i: int| 0 <= i < v2.entries.len() implies v2.entries[i].0 != n by {
            let i0 = if i < k {
                i
            } else {
                i + 1
            };
            assert(v2.entries[i] == v.entries[i0]);
        }
        assert forall|m: Seq<char>| m != n implies rv_has(v2, m) == rv_has(v, m) by {
            if rv_has(v2, m) {
                let j = rv_idx(v2, m);
                let j0 = if j < k {
                    j
                } else {
                    j + 1
                };
                assert(v2.entries[j] == v.entries[j0]);
            }
            if rv_has(v, m) {
                let j = rv_idx(v, m);
                if j < k {
                    assert(v2.entries[j] == v.entries[j]);
                } else {
                    assert(j > k);
                    assert(v2.entries[j - 1] == v.entries[j]);
                }
            }
        }
        assert forall|m: Seq<char>| m != n && rv_has(v, m) implies rv_val(v2, m) == rv_val(
            v,
            m,
        ) by {
            let j = rv_idx(v, m);
            let j2 = rv_idx(v2, m);
            let j20 = if j2 < k {
                j2
            } else {
                j2 + 1
            };
            assert(v2.entries[j2] == v.entries[j20]);
            assert(v.entries[j20].0 == m);
            assert(j20 == j);
            assert(v.entries[j].1 != v.entries[k].1);
        }
    }
}

/// Law: a registry whose next position has reached the capacity rejects
/// a fresh name; below the capacity a fresh name is accepted and
/// consumes exactly one position.  A fixed registry of width `cap`
/// therefore accepts exactly `cap` distinct names.
pub proof fn lemma_registry_capacity(v: RegView, cap: nat, n: Seq<char>, val: bool)
    requires
        rv_wf(v, cap),
        !rv_has(v, n),
    ensures
        rv_set_ok(v, cap, n) <==> v.next < cap,
        v.next < cap ==> rv_set(v, cap, n, val).next == v.next + 1 && rv_set(
            v,
            cap,
            n,
            val,
        ).entries.len() == v.entries.len() + 1,
        v.next >= cap ==> rv_set(v, cap, n, val) == v,
{
}

/// Law: a prefix of mass-assignment steps that all succeed places no
/// failure before its end.
pub proof fn lemma_mass_fail_skip(
    v: RegView,
    cap: nat,
    names: Seq<Seq<char>>,
    vals: Seq<bool>,
    count: nat,
    k: nat,
)
    requires
        k <= count,
        forall|j: nat|
            j < k ==> rv_set_ok(#[trigger] rv_mass(v, cap, names, vals, j), cap, names[j as int]),
    ensures
        rv_mass_fail(v, cap, names, vals, count, 0) == rv_mass_fail(v, cap, names, vals, count, k),
    decreases k,
{
    if k > 0 {
        lemma_mass_fail_skip(v, cap, names, vals, count, (k - 1) as nat);
        assert(rv_set_ok(rv_mass(v, cap, names, vals, (k - 1) as nat), cap, names[k - 1]));
    }
}

/// A bit position lies under the byte count exactly when its byte
/// index does.
pub proof fn lemma_pos_byte(pos: int, len_bytes: int)
    requires
        pos >= 0,
        len_bytes >= 0,
    ensures
        (pos < 8 * len_bytes) <==> (pos / 8 < len_bytes),
{
    vstd::arithmetic::div_mod::lemma_fundamental_div_mod(pos, 8);
}

/// A prefix of known names places no missing name before its end.
pub proof fn lemma_first_missing_skip(v: RegView, names: Seq<Seq<char>>, count: nat, k: nat)
    requires
        k <= count,
        forall|j: nat| j < k ==> rv_has(v, #[trigger] names[j as int]),
    ensures
        first_missing(v, names, count, 0) == first_missing(v, names, count, k),
    decreases k,
{
    if k > 0 {
        lemma_first_missing_skip(v, names, count, (k - 1) as nat);
        assert(rv_has(v, names[k - 1]));
    }
}

/// Law: toggling known names flips values but never adds or removes a
/// name, so the entries stay exactly what they were.
pub proof fn lemma_toggles_entries(v: RegView, cap: nat, names: Seq<Seq<char>>, k: nat)
    requires
        rv_wf(v, cap),
        forall|j: nat| j < k ==> rv_has(v, #[trigger] names[j as int]),
    ensures
        rv_toggles(v, cap, names, k).entries == v.entries,
        rv_wf(rv_toggles(v, cap, names, k), cap),
    decreases k,
{
    if k > 0 {
        lemma_toggles_entries(v, cap, names, (k - 1) as nat);
        let w = rv_toggles(v, cap, names, (k - 1) as nat);
        assert(rv_has(v, names[k - 1]));
        assert(rv_has(w, names[k - 1]));
        lemma_set_preserves_wf(w, cap, names[k - 1], !rv_val(w, names[k - 1]));
    }
}

} // verus!

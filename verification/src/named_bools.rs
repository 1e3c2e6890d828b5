//! Fixed-capacity registry of named boolean values.
//!
//! A `BetterBoolNamed<T>` layers a name-to-position index over a
//! `BetterBool<T>`.  Position assignment is monotonic: a fresh name
//! takes the next free position, and deleting a name retires its
//! position without reclaiming it.  The whole behaviour is specified
//! against the registry model of [`crate::model`].

use vstd::prelude::*;

use crate::bbool::BetterBool;
use crate::error::BBoolError;
use crate::model::{
    first_missing, lemma_delete_preserves_wf, rv_idx, lemma_first_missing_skip, lemma_idx_unique,
    lemma_mass_fail_skip, lemma_set_preserves_wf, lemma_toggles_entries, rv_bit, rv_delete,
    rv_has, rv_mass, rv_mass_fail, rv_set, rv_set_ok, rv_toggle, rv_toggles, rv_val, rv_wf,
    RegView,
};
use crate::pattern::{
    count_tokens, ends_repeat, first_invalid, has_brace_tok, has_placeholder, has_repeat,
    is_true_token, mass_names, mass_vals, name_for, parse_value_pattern, tokens,
    value_at, views_of,
};
use crate::traits::{BitwiseOpsClone, BitwiseOpsCopy, Nums};

verus! {

/// Type alias for a 128-bit named `BetterBool`.
pub type BN128 = BetterBoolNamed<u128>;

/// Type alias for a 64-bit named `BetterBool`.
pub type BN64 = BetterBoolNamed<u64>;

/// Type alias for a 32-bit named `BetterBool`.
pub type BN32 = BetterBoolNamed<u32>;

/// Type alias for a 16-bit named `BetterBool`.
pub type BN16 = BetterBoolNamed<u16>;

/// Type alias for an 8-bit named `BetterBool`.
pub type BN8 = BetterBoolNamed<u8>;

/// Generic type alias for named `BetterBool` with any supported backing
/// type.
pub type BNBool<T> = BetterBoolNamed<T>;

/// A fixed-size collection of named boolean values.
pub struct BetterBoolNamed<T: Nums> {
    /// The underlying boolean storage.
    pub bools: BetterBool<T>,
    /// Name/position pairs in insertion order, names unique while the
    /// registry is well-formed.
    pub names: Vec<(String, u8)>,
    /// Next available position for new boolean values.
    pub next_assign: u8,
}

impl<T: Nums> View for BetterBoolNamed<T> {
    type V = RegView;

    open spec fn view(&self) -> RegView {
        RegView {
            entries: Seq::new(
                self.names@.len(),
                |i: int| (self.names@[i].0@, self.names@[i].1 as nat),
            ),
            bits: self.bools.bools(),
            next: self.next_assign as nat,
        }
    }
}

impl<T: Nums> BetterBoolNamed<T> {
    /// The capacity of the registry: one position per slot of the
    /// backing store.
    pub open spec fn spec_cap() -> nat {
        T::spec_cap() as nat
    }

    /// Well-formedness: positions stay below `next_assign`, which stays
    /// within the capacity, and names as well as positions are pairwise
    /// distinct.  Constructors establish it and every method keeps it.
    pub open spec fn wf(self) -> bool {
        rv_wf(self@, Self::spec_cap())
    }

    /// Finds the index of the entry carrying the name.
    fn find(&self, name: &str) -> (r: Option<usize>)
        ensures
            match r {
                Some(i) => i < self@.entries.len() && self@.entries[i as int].0 == name@,
                None => !rv_has(self@, name@),
            },
    {
        let key: String = name.to_owned();
        let mut i: usize = 0;
        while i < self.names.len()
            invariant
                key@ == name@,
                i <= self.names@.len(),
                forall|j: int| 0 <= j < i ==> self.names@[j].0@ != name@,
            decreases self.names@.len() - i,
        {
            if self.names[i].0 == key {
                return Some(i);
            }
            i += 1;
        }
        None
    }
}

impl<T: Nums> Default for BetterBoolNamed<T> {
    fn default() -> (r: Self)
        ensures
            r.wf(),
            r@.entries.len() == 0,
            r@.next == 0,
            forall|p: nat| !rv_bit(r@, p),
            r.bools.reader_head_pos == 0,
    {
        BetterBoolNamed { bools: BetterBool::default(), names: Vec::new(), next_assign: 0 }
    }
}

impl<T: BitwiseOpsCopy> BetterBoolNamed<T> {
    /// Creates a registry over a store seeded with the given raw value.
    pub fn from_num(initial_value: T) -> (r: Self)
        ensures
            r.wf(),
            r@.entries.len() == 0,
            r@.next == 0,
            r.bools == crate::bbool::from_num_spec(initial_value),
    {
        BetterBoolNamed {
            bools: BetterBool::from_num(initial_value),
            names: Vec::new(),
            next_assign: 0,
        }
    }

    /// Creates an empty registry.
    #[must_use]
    pub fn new() -> (r: Self)
        ensures
            r.wf(),
            r@.entries.len() == 0,
            r@.next == 0,
            forall|p: nat| !rv_bit(r@, p),
            r.bools.reader_head_pos == 0,
    {
        BetterBoolNamed { bools: BetterBool::new(), names: Vec::new(), next_assign: 0 }
    }

    /// Adds a named boolean value.  A known name is updated in place; a
    /// fresh name takes the next free position.  Fails with
    /// `CollectionCapacityReached` when no position is free, leaving
    /// the registry unchanged.
    pub fn add(&mut self, name: &str, value: bool) -> (r: Result<(), BBoolError>)
        requires
            old(self).wf(),
        ensures
            final(self).wf(),
            final(self)@ == rv_set(old(self)@, Self::spec_cap(), name@, value),
            rv_set_ok(old(self)@, Self::spec_cap(), name@) ==> r == Ok::<(), BBoolError>(()),
            !rv_set_ok(old(self)@, Self::spec_cap(), name@) ==> r == Err::<(), BBoolError>(
                BBoolError::CollectionCapacityReached,
            ),
            final(self).bools.reader_head_pos == old(self).bools.reader_head_pos,
    {
        proof {
            lemma_set_preserves_wf(old(self)@, Self::spec_cap(), name@, value);
        }
        match self.find(name) {
            Some(i) => {
                proof {
                    lemma_idx_unique(self@, Self::spec_cap(), i as int);
                }
                let pos = self.names[i].1;
                self.bools.set_unchecked_at_pos(pos, value);
                proof {
                    assert(self@.entries =~~= old(self)@.entries);
                    assert(self@ =~~= rv_set(old(self)@, Self::spec_cap(), name@, value));
                }
                Ok(())
            },
            None => {
                if self.next_assign < T::cap() {
                    let pos = self.next_assign;
                    self.names.push((name.to_owned(), pos));
                    self.bools.set_unchecked_at_pos(pos, value);
                    self.next_assign = pos + 1;
                    proof {
                        assert(self@.entries =~~= old(self)@.entries.push(
                            (name@, pos as nat),
                        ));
                        assert(self@ =~~= rv_set(old(self)@, Self::spec_cap(), name@, value));
                    }
                    Ok(())
                } else {
                    Err(BBoolError::CollectionCapacityReached)
                }
            },
        }
    }

    /// Sets a named boolean value; identical to `add`, also on a known
    /// name.
    pub fn set(&mut self, name: &str, value: bool) -> (r: Result<(), BBoolError>)
        requires
            old(self).wf(),
        ensures
            final(self).wf(),
            final(self)@ == rv_set(old(self)@, Self::spec_cap(), name@, value),
            rv_set_ok(old(self)@, Self::spec_cap(), name@) ==> r == Ok::<(), BBoolError>(()),
            !rv_set_ok(old(self)@, Self::spec_cap(), name@) ==> r == Err::<(), BBoolError>(
                BBoolError::CollectionCapacityReached,
            ),
            final(self).bools.reader_head_pos == old(self).bools.reader_head_pos,
    {
        self.add(name, value)
    }

    /// Sets or adds `count` named values at once.  The names come from
    /// substituting the index for `{n}` in the name pattern; the values
    /// come from the comma-separated value pattern, cycling when it
    /// ends with `{r}`.  Entries written before a capacity failure stay
    /// written.
    pub fn mass_set(&mut self, count: u8, pattern: &str, value_pattern: &str) -> (r: Result<
        (),
        BBoolError,
    >)
        requires
            old(self).wf(),
        ensures
            final(self).wf(),
            !has_placeholder(pattern@) ==> (r matches Err(BBoolError::InvalidPattern(m)) && m@
                == "Pattern must contain {n}"@) && *final(self) == *old(self),
            has_placeholder(pattern@) && !has_repeat(value_pattern@) && tokens(value_pattern@).len()
                < count ==> (r matches Err(BBoolError::InvalidPattern(m)) && m@
                == "Value pattern must be able to fill all set bools"@) && *final(self) == *old(
                self,
            ),
            has_placeholder(pattern@) && (has_repeat(value_pattern@) || tokens(
                value_pattern@,
            ).len() >= count) ==> (first_invalid(tokens(value_pattern@), 0) matches Some(b) ==> (
            r matches Err(BBoolError::InvalidBooleanToken(m)) && m@ == tokens(
                value_pattern@,
            )[b as int]) && *final(self) == *old(self)),
            has_placeholder(pattern@) && (has_repeat(value_pattern@) || tokens(
                value_pattern@,
            ).len() >= count) && first_invalid(tokens(value_pattern@), 0) is None ==> ({
                let names = mass_names(pattern@, count as nat);
                let vals = mass_vals(value_pattern@, count as nat);
                match rv_mass_fail(old(self)@, Self::spec_cap(), names, vals, count as nat, 0) {
                    None => r == Ok::<(), BBoolError>(()) && final(self)@ == rv_mass(
                        old(self)@,
                        Self::spec_cap(),
                        names,
                        vals,
                        count as nat,
                    ),
                    Some(k) => r == Err::<(), BBoolError>(BBoolError::CollectionCapacityReached)
                        && final(self)@ == rv_mass(old(self)@, Self::spec_cap(), names, vals, k),
                }
            }),
    {
        if !has_brace_tok(pattern, 'n') {
            return Err(BBoolError::InvalidPattern(String::from_str("Pattern must contain {n}")));
        }
        let ntok = count_tokens(value_pattern);
        if !has_brace_tok(value_pattern, 'r') && ntok < count as usize {
            return Err(
                BBoolError::InvalidPattern(
                    String::from_str("Value pattern must be able to fill all set bools"),
                ),
            );
        }
        let parsed = match parse_value_pattern(value_pattern) {
            Ok(p) => p,
            Err(e) => {
                return Err(e);
            },
        };
        let values = parsed.0;
        let repeating = parsed.1;
        let ghost names = mass_names(pattern@, count as nat);
        let ghost vals = mass_vals(value_pattern@, count as nat);
        let ghost toks = tokens(value_pattern@);
        proof {
            crate::pattern::lemma_tokens_nonempty(value_pattern@);
        }
        let mut i: u8 = 0;
        while i < count
            invariant
                i <= count,
                self.wf(),
                old(self).wf(),
                values@.len() == toks.len(),
                toks.len() >= 1,
                toks == tokens(value_pattern@),
                names == mass_names(pattern@, count as nat),
                vals == mass_vals(value_pattern@, count as nat),
                forall|k: int| 0 <= k < values@.len() ==> values@[k] == is_true_token(toks[k]),
                repeating == ends_repeat(value_pattern@),
                has_placeholder(pattern@),
                has_repeat(value_pattern@) || tokens(value_pattern@).len() >= count,
                first_invalid(tokens(value_pattern@), 0) is None,
                self@ == rv_mass(old(self)@, Self::spec_cap(), names, vals, i as nat),
                forall|j: nat|
                    j < i ==> rv_set_ok(
                        #[trigger] rv_mass(old(self)@, Self::spec_cap(), names, vals, j),
                        Self::spec_cap(),
                        names[j as int],
                    ),
            decreases count - i,
        {
            let name = name_for(pattern, i as u128);
            let v = if repeating {
                values[(i as usize) % values.len()]
            } else if (i as usize) < values.len() {
                values[i as usize]
            } else {
                values[values.len() - 1]
            };
            proof {
                assert(v == value_at(value_pattern@, i as nat));
                assert(name@ == names[i as int]);
                assert(vals[i as int] == value_at(value_pattern@, i as nat));
            }
            let ghost pre = self@;
            match self.set(&name, v) {
                Ok(()) => {
                    proof {
                        assert(rv_set_ok(pre, Self::spec_cap(), name@));
                        assert(rv_mass(old(self)@, Self::spec_cap(), names, vals, (i + 1) as nat)
                            == rv_set(pre, Self::spec_cap(), names[i as int], vals[i as int]));
                    }
                    i += 1;
                },
                Err(e) => {
                    proof {
                        assert(!rv_set_ok(pre, Self::spec_cap(), name@));
                        lemma_mass_fail_skip(
                            old(self)@,
                            Self::spec_cap(),
                            names,
                            vals,
                            count as nat,
                            i as nat,
                        );
                    }
                    return Err(e);
                },
            }
        }
        proof {
            lemma_mass_fail_skip(
                old(self)@,
                Self::spec_cap(),
                names,
                vals,
                count as nat,
                count as nat,
            );
        }
        Ok(())
    }

    /// Gets the values of the given names, in order; fails with
    /// `NotFound` on the first missing name.
    pub fn mass_get(&self, names: &[&str]) -> (r: Result<Vec<bool>, BBoolError>)
        requires
            self.wf(),
        ensures
            first_missing(self@, views_of(names@), names@.len() as nat, 0) is None ==> (
            r matches Ok(v) && v@.len() == names@.len() && forall|i: int|
                0 <= i < v@.len() ==> v@[i] == rv_val(self@, names@[i]@)),
            first_missing(self@, views_of(names@), names@.len() as nat, 0) matches Some(k) ==> (
            r matches Err(BBoolError::NotFound(m)) && m@ == names@[k as int]@),
    {
        let mut out: Vec<bool> = Vec::new();
        let mut i: usize = 0;
        while i < names.len()
            invariant
                self.wf(),
                i <= names@.len(),
                out@.len() == i,
                forall|j: int| 0 <= j < i ==> out@[j] == rv_val(self@, names@[j]@),
                forall|j: nat| j < i ==> rv_has(self@, #[trigger] views_of(names@)[j as int]),
            decreases names@.len() - i,
        {
            match self.get(names[i]) {
                Ok(v) => {
                    out.push(v);
                },
                Err(e) => {
                    proof {
                        lemma_first_missing_skip(
                            self@,
                            views_of(names@),
                            names@.len() as nat,
                            i as nat,
                        );
                    }
                    return Err(e);
                },
            }
            i += 1;
        }
        proof {
            lemma_first_missing_skip(
                self@,
                views_of(names@),
                names@.len() as nat,
                names@.len() as nat,
            );
        }
        Ok(out)
    }

    /// Toggles the given names, in order; fails with `NotFound` on the
    /// first missing name, keeping the toggles made before it.
    pub fn mass_toggle(&mut self, names: &[&str]) -> (r: Result<(), BBoolError>)
        requires
            old(self).wf(),
        ensures
            final(self).wf(),
            first_missing(old(self)@, views_of(names@), names@.len() as nat, 0) is None ==> r
                == Ok::<(), BBoolError>(()) && final(self)@ == rv_toggles(
                old(self)@,
                Self::spec_cap(),
                views_of(names@),
                names@.len() as nat,
            ),
            first_missing(old(self)@, views_of(names@), names@.len() as nat, 0) matches Some(k)
                ==> (r matches Err(BBoolError::NotFound(m)) && m@ == names@[k as int]@)
                && final(self)@ == rv_toggles(old(self)@, Self::spec_cap(), views_of(names@), k),
    {
        let mut i: usize = 0;
        while i < names.len()
            invariant
                old(self).wf(),
                self.wf(),
                i <= names@.len(),
                self@ == rv_toggles(old(self)@, Self::spec_cap(), views_of(names@), i as nat),
                forall|j: nat| j < i ==> rv_has(old(self)@, #[trigger] views_of(names@)[j as int]),
            decreases names@.len() - i,
        {
            proof {
                lemma_toggles_entries(old(self)@, Self::spec_cap(), views_of(names@), i as nat);
            }
            let ghost pre = self@;
            match self.toggle(names[i]) {
                Ok(()) => {
                    proof {
                        assert(rv_has(pre, names@[i as int]@));
                        assert(rv_has(old(self)@, views_of(names@)[i as int]));
                    }
                },
                Err(e) => {
                    proof {
                        assert(!rv_has(pre, names@[i as int]@));
                        assert(!rv_has(old(self)@, views_of(names@)[i as int]));
                        lemma_first_missing_skip(
                            old(self)@,
                            views_of(names@),
                            names@.len() as nat,
                            i as nat,
                        );
                    }
                    return Err(e);
                },
            }
            i += 1;
        }
        proof {
            lemma_first_missing_skip(
                old(self)@,
                views_of(names@),
                names@.len() as nat,
                names@.len() as nat,
            );
        }
        Ok(())
    }

    /// Returns a new registry holding the same name/value pairs,
    /// re-added in ascending name order: positions are reassigned
    /// densely from `0`, dropping any gaps left by deletions.
    #[verifier::rlimit(100)]
    #[verifier::loop_isolation(false)]
    pub fn sorted(&self) -> (r: Result<Self, BBoolError>)
        requires
            self.wf(),
        ensures
            r matches Ok(b) && b.wf() && b@.entries.len() == self@.entries.len() && b@.next
                == self@.entries.len() && (forall|l: int|
                0 <= l < b@.entries.len() ==> (#[trigger] b@.entries[l]).1 == l) && (forall|
                l1: int,
                l2: int,
            |
                0 <= l1 < l2 < b@.entries.len() ==> crate::text::lex_lt(
                    b@.entries[l1].0,
                    b@.entries[l2].0,
                )) && (forall|n: Seq<char>| rv_has(b@, n) == rv_has(self@, n)) && (forall|
                n: Seq<char>,
            |
                rv_has(self@, n) ==> rv_val(b@, n) == rv_val(self@, n))
                && b.bools.reader_head_pos == 0,
    {
        let pairs = match self.all() {
            Ok(p) => p,
            Err(e) => {
                return Err(e);
            },
        };
        // Insertion sort of the pairs by name.
        proof {
            assert forall|j1: int, j2: int|
                0 <= j1 < j2 < pairs@.len() implies (#[trigger] pairs@[j1]).0@ != (
            #[trigger] pairs@[j2]).0@ by {
                assert(self@.entries[j1].0 != self@.entries[j2].0);
            }
        }
        let mut sp: Vec<(String, bool)> = Vec::new();
        let mut i: usize = 0;
        while i < pairs.len()
            invariant
                i <= pairs@.len(),
                sp@.len() == i,
                crate::text::pairs_from(sp@, pairs@, i as int),
                crate::text::pairs_cover(sp@, pairs@, i as int),
                crate::text::pairs_sorted(sp@),
            decreases pairs@.len() - i,
        {
            let key = pairs[i].0.clone();
            let val = pairs[i].1;
            let mut idx: usize = 0;
            while idx < sp.len() && crate::text::str_lt(sp[idx].0.as_str(), key.as_str())
                invariant
                    key@ == pairs@[i as int].0@,
                    idx <= sp@.len(),
                    forall|l: int|
                        0 <= l < idx ==> crate::text::lex_lt((#[trigger] sp@[l]).0@, key@),
                decreases sp@.len() - idx,
            {
                idx += 1;
            }
            proof {
                crate::text::lemma_insert_sorted_pairs(
                    sp@,
                    pairs@,
                    i as int,
                    idx as int,
                    (key, val),
                );
            }
            sp.insert(idx, (key, val));
            i += 1;
        }
        // Rebuild a fresh registry in sorted order.
        let mut out = Self::new();
        let mut l: usize = 0;
        while l < sp.len()
            invariant
                out.wf(),
                l <= sp@.len(),
                out@.next == l,
                out@.entries.len() == l,
                forall|m: int|
                    0 <= m < l ==> (#[trigger] out@.entries[m]).0 == sp@[m].0@
                        && out@.entries[m].1 == m,
                forall|m: int| 0 <= m < l ==> rv_bit(out@, m as nat) == sp@[m].1,
                out.bools.reader_head_pos == 0,
            decreases sp@.len() - l,
        {
            proof {
                assert(sp@.len() <= self@.next);
                if rv_has(out@, sp@[l as int].0@) {
                    let m = rv_idx(out@, sp@[l as int].0@);
                    assert(crate::text::lex_lt((sp@[m]).0@, (sp@[l as int]).0@));
                    crate::text::lemma_lex_irrefl(sp@[l as int].0@);
                }
            }
            let ghost pre = out@;
            let name_val = sp[l].1;
            match out.add(sp[l].0.as_str(), name_val) {
                Ok(()) => {},
                Err(e) => {
                    return Err(e);
                },
            }
            proof {
                crate::model::lemma_grow_bits(pre.bits, pre.next);
                assert forall|m: int| 0 <= m < l + 1 implies rv_bit(out@, m as nat) == sp@[m].1 by {
                    if m < l {
                        assert(rv_bit(pre, m as nat) == sp@[m].1);
                    }
                }
            }
            l += 1;
        }
        proof {
            let b = out;
            assert forall|n: Seq<char>| rv_has(b@, n) == rv_has(self@, n) by {
                if rv_has(b@, n) {
                    let m = rv_idx(b@, n);
                    assert(b@.entries[m].0 == sp@[m].0@);
                    let j = choose|j: int|
                        0 <= j < pairs@.len() && sp@[m].0@ == (#[trigger] pairs@[j]).0@ && sp@[m].1
                            == pairs@[j].1;
                    assert(self@.entries[j].0 == n);
                    assert(rv_has(self@, n));
                }
                if rv_has(self@, n) {
                    let j = rv_idx(self@, n);
                    assert(pairs@[j].0@ == n);
                    let m = choose|m: int|
                        0 <= m < sp@.len() && (#[trigger] sp@[m]).0@ == pairs@[j].0@ && sp@[m].1
                            == pairs@[j].1;
                    assert(b@.entries[m].0 == n);
                    assert(rv_has(b@, n));
                }
            }
            assert forall|n: Seq<char>| rv_has(self@, n) implies rv_val(b@, n) == rv_val(
                self@,
                n,
            ) by {
                let j = rv_idx(self@, n);
                lemma_idx_unique(self@, Self::spec_cap(), j);
                assert(pairs@[j].0@ == n);
                let m = choose|m: int|
                    0 <= m < sp@.len() && (#[trigger] sp@[m]).0@ == pairs@[j].0@ && sp@[m].1
                        == pairs@[j].1;
                lemma_idx_unique(b@, Self::spec_cap(), m);
                assert(rv_val(b@, n) == rv_bit(b@, b@.entries[m].1));
                assert(rv_bit(b@, m as nat) == sp@[m].1);
                assert(sp@[m].1 == pairs@[j].1);
                assert(rv_val(self@, n) == rv_bit(self@, self@.entries[j].1));
            }
        }
        Ok(out)
    }

    /// Sorts the registry in place by name: the entries are re-added in
    /// ascending name order with densely reassigned positions.  The
    /// next position to assign is not reset.
    pub fn sort(&mut self) -> (r: Result<(), BBoolError>)
        requires
            old(self).wf(),
        ensures
            final(self).wf(),
            r == Ok::<(), BBoolError>(()),
            final(self)@.next == old(self)@.next,
            final(self)@.entries.len() == old(self)@.entries.len(),
            forall|l: int|
                0 <= l < final(self)@.entries.len() ==> (#[trigger] final(self)@.entries[l]).1
                    == l,
            forall|l1: int, l2: int|
                0 <= l1 < l2 < final(self)@.entries.len() ==> crate::text::lex_lt(
                    final(self)@.entries[l1].0,
                    final(self)@.entries[l2].0,
                ),
            forall|n: Seq<char>| rv_has(final(self)@, n) == rv_has(old(self)@, n),
            forall|n: Seq<char>|
                rv_has(old(self)@, n) ==> rv_val(final(self)@, n) == rv_val(old(self)@, n),
    {
        let b = match self.sorted() {
            Ok(b) => b,
            Err(e) => {
                return Err(e);
            },
        };
        let ghost bv = b@;
        self.names = b.names;
        self.bools = b.bools;
        proof {
            assert(self@.entries =~~= bv.entries);
            assert(rv_wf(self@, Self::spec_cap())) by {
                assert(old(self)@.entries.len() <= old(self)@.next);
                assert forall|m: int|
                    0 <= m < self@.entries.len() implies (#[trigger] self@.entries[m]).1
                    < self@.next by {
                    assert(self@.entries[m] == bv.entries[m]);
                    assert(bv.entries[m].1 == m);
                }
                assert forall|m1: int, m2: int|
                    0 <= m1 < m2 < self@.entries.len() implies self@.entries[m1].0
                    != self@.entries[m2].0 && self@.entries[m1].1 != self@.entries[m2].1 by {
                    assert(self@.entries[m1] == bv.entries[m1]);
                    assert(self@.entries[m2] == bv.entries[m2]);
                }
            }
            assert forall|n: Seq<char>| rv_has(self@, n) == rv_has(bv, n) by {
                if rv_has(self@, n) {
                    let j = rv_idx(self@, n);
                    assert(bv.entries[j].0 == n);
                }
                if rv_has(bv, n) {
                    let j = rv_idx(bv, n);
                    assert(self@.entries[j].0 == n);
                }
            }
            assert forall|n: Seq<char>| rv_has(bv, n) implies rv_val(self@, n) == rv_val(
                bv,
                n,
            ) by {
                let j = rv_idx(bv, n);
                lemma_idx_unique(bv, Self::spec_cap(), j);
                assert(self@.entries[j].0 == n);
                lemma_idx_unique(self@, Self::spec_cap(), j);
                assert(self@.bits == bv.bits);
            }
        }
        Ok(())
    }

    /// Gets the boolean value associated with the name.
    pub fn get(&self, name: &str) -> (r: Result<bool, BBoolError>)
        requires
            self.wf(),
        ensures
            rv_has(self@, name@) ==> r == Ok::<bool, BBoolError>(rv_val(self@, name@)),
            !rv_has(self@, name@) ==> (r matches Err(BBoolError::NotFound(m)) && m@ == name@),
    {
        match self.find(name) {
            Some(i) => {
                proof {
                    lemma_idx_unique(self@, Self::spec_cap(), i as int);
                }
                let pos = self.names[i].1;
                Ok(self.bools.get_unchecked_at_pos(pos))
            },
            None => Err(BBoolError::NotFound(name.to_owned())),
        }
    }

    /// Toggles the boolean value associated with the name; fails with
    /// `NotFound` when the name is unknown.
    pub fn toggle(&mut self, name: &str) -> (r: Result<(), BBoolError>)
        requires
            old(self).wf(),
        ensures
            final(self).wf(),
            rv_has(old(self)@, name@) ==> r == Ok::<(), BBoolError>(()) && final(self)@
                == rv_toggle(old(self)@, Self::spec_cap(), name@),
            !rv_has(old(self)@, name@) ==> (r matches Err(BBoolError::NotFound(m)) && m@ == name@)
                && *final(self) == *old(self),
    {
        let cur = match self.get(name) {
            Ok(b) => b,
            Err(e) => {
                return Err(e);
            },
        };
        match self.set(name, !cur) {
            Ok(()) => Ok(()),
            Err(e) => Err(e),
        }
    }

    /// Whether a boolean value with the given name exists.
    pub fn exists_name(&self, name: &str) -> (r: bool)
        ensures
            r == rv_has(self@, name@),
    {
        match self.find(name) {
            Some(_) => true,
            None => false,
        }
    }

    /// Deletes a named boolean value: clears its slot and removes the
    /// mapping.  The position is not reclaimed.  A missing name is a
    /// no-op.
    pub fn delete(&mut self, name: &str) -> (r: Result<(), BBoolError>)
        requires
            old(self).wf(),
        ensures
            final(self).wf(),
            final(self)@ == rv_delete(old(self)@, name@),
            r == Ok::<(), BBoolError>(()),
    {
        proof {
            lemma_delete_preserves_wf(old(self)@, Self::spec_cap(), name@);
        }
        match self.find(name) {
            None => Ok(()),
            Some(i) => {
                proof {
                    lemma_idx_unique(self@, Self::spec_cap(), i as int);
                }
                let pos = self.names[i].1;
                self.bools.set_unchecked_at_pos(pos, false);
                self.names.remove(i);
                proof {
                    old(self)@.entries.remove_ensures(i as int);
                    old(self).names@.remove_ensures(i as int);
                    assert(self@.entries =~~= old(self)@.entries.remove(i as int));
                    assert(self@ =~~= rv_delete(old(self)@, name@));
                }
                Ok(())
            },
        }
    }

    /// Clears every stored value and every name; the next position to
    /// assign is not reset.
    pub fn clear(&mut self)
        requires
            old(self).wf(),
        ensures
            final(self).wf(),
            final(self)@.entries.len() == 0,
            final(self)@.next == old(self)@.next,
            forall|p: nat| !rv_bit(final(self)@, p),
            final(self).bools.reader_head_pos == old(self).bools.reader_head_pos,
    {
        self.names.clear();
        self.bools.clear();
    }

    /// Returns every stored boolean slot of the backing store, slot `0`
    /// first.
    pub fn all_bools(&self) -> (r: Result<Vec<bool>, BBoolError>)
        ensures
            r matches Ok(v) && v@ == self.bools.bools(),
    {
        let cap = T::cap();
        let mut out: Vec<bool> = Vec::new();
        let mut i: u8 = 0;
        while i < cap
            invariant
                i <= cap,
                cap == T::spec_cap(),
                out@.len() == i as int,
                forall|j: int| 0 <= j < i ==> out@[j] == self.bools.bools()[j],
            decreases cap - i,
        {
            out.push(self.bools.get_unchecked_at_pos(i));
            i += 1;
        }
        proof {
            assert(out@ =~= self.bools.bools());
        }
        Ok(out)
    }

    /// Returns every name together with its current boolean value, in
    /// insertion order.
    pub fn all(&self) -> (r: Result<Vec<(String, bool)>, BBoolError>)
        requires
            self.wf(),
        ensures
            r matches Ok(v) && v@.len() == self@.entries.len() && forall|i: int|
                0 <= i < v@.len() ==> (#[trigger] v@[i]).0@ == self@.entries[i].0 && v@[i].1
                    == rv_bit(self@, self@.entries[i].1),
    {
        let mut out: Vec<(String, bool)> = Vec::new();
        let mut i: usize = 0;
        while i < self.names.len()
            invariant
                self.wf(),
                i <= self.names@.len(),
                out@.len() == i as int,
                forall|j: int|
                    0 <= j < i ==> (#[trigger] out@[j]).0@ == self@.entries[j].0 && out@[j].1
                        == rv_bit(self@, self@.entries[j].1),
            decreases self.names@.len() - i,
        {
            let pos = self.names[i].1;
            proof {
                assert(self@.entries[i as int].1 < Self::spec_cap());
            }
            let value = self.bools.get_unchecked_at_pos(pos);
            out.push((self.names[i].0.clone(), value));
            i += 1;
        }
        Ok(out)
    }

    /// Immutable reference to the raw backing value of the store.
    pub fn get_raw(&self) -> (r: &T)
        ensures
            *r == self.bools.store,
    {
        self.bools.get_raw()
    }

    /// Mutable reference to the raw backing value of the store.
    pub fn get_raw_mut(&mut self) -> (r: &mut T)
        ensures
            *r == old(self).bools.store,
            final(self).bools.store == *final(r),
            final(self).bools.reader_head_pos == old(self).bools.reader_head_pos,
            final(self)@.entries == old(self)@.entries,
            final(self)@.next == old(self)@.next,
            old(self).wf() ==> final(self).wf(),
    {
        &mut self.bools.store
    }
}

impl<T: Nums> BetterBoolNamed<T> {
    /// Returns a clone of the name-to-position entries, in insertion
    /// order.
    pub fn all_names_cl(&self) -> (r: Vec<(String, u8)>)
        ensures
            r@.len() == self@.entries.len(),
            forall|i: int|
                0 <= i < r@.len() ==> (#[trigger] r@[i]).0@ == self@.entries[i].0 && r@[i].1 as nat
                    == self@.entries[i].1,
    {
        let mut out: Vec<(String, u8)> = Vec::new();
        let mut i: usize = 0;
        while i < self.names.len()
            invariant
                i <= self.names@.len(),
                out@.len() == i as int,
                forall|j: int|
                    0 <= j < i ==> (#[trigger] out@[j]).0@ == self@.entries[j].0 && out@[j].1 as nat
                        == self@.entries[j].1,
            decreases self.names@.len() - i,
        {
            out.push((self.names[i].0.clone(), self.names[i].1));
            i += 1;
        }
        out
    }

    /// Reference to the name-to-position entries, in insertion order.
    pub fn all_names(&self) -> (r: &Vec<(String, u8)>)
        ensures
            r@.len() == self@.entries.len(),
            forall|i: int|
                0 <= i < r@.len() ==> (#[trigger] r@[i]).0@ == self@.entries[i].0 && r@[i].1 as nat
                    == self@.entries[i].1,
    {
        &self.names
    }

    /// Mutable reference to the name-to-position entries.  Writes
    /// through it can break well-formedness; the other methods demand
    /// it back.
    pub fn all_names_mut(&mut self) -> (r: &mut Vec<(String, u8)>)
        ensures
            (*r)@.len() == old(self)@.entries.len(),
            forall|i: int|
                0 <= i < (*r)@.len() ==> (#[trigger] (*r)@[i]).0@ == old(self)@.entries[i].0 && (
                *r)@[i].1 as nat == old(self)@.entries[i].1,
            final(self)@.bits == old(self)@.bits,
            final(self)@.next == old(self)@.next,
            final(self)@.entries == Seq::new(
                (*final(r))@.len(),
                |i: int| ((*final(r))@[i].0@, (*final(r))@[i].1 as nat),
            ),
    {
        &mut self.names
    }
}

impl<T: BitwiseOpsClone> BetterBoolNamed<T> {
    /// Gets the boolean value associated with the name, reading through
    /// a clone of the backing value.
    pub fn get_cl(&self, name: &str) -> (r: Result<bool, BBoolError>)
        requires
            self.wf(),
        ensures
            rv_has(self@, name@) ==> r == Ok::<bool, BBoolError>(rv_val(self@, name@)),
            !rv_has(self@, name@) ==> (r matches Err(BBoolError::NotFound(m)) && m@ == name@),
    {
        match self.find(name) {
            Some(i) => {
                proof {
                    lemma_idx_unique(self@, Self::spec_cap(), i as int);
                }
                let pos = self.names[i].1;
                Ok(self.bools.get_unchecked_cl_at_pos(pos))
            },
            None => Err(BBoolError::NotFound(name.to_owned())),
        }
    }

    /// A clone of the raw backing value of the store.
    pub fn get_raw_cl(&self) -> (r: T)
        ensures
            r == self.bools.store,
    {
        self.bools.get_raw_cl()
    }
}

} // verus!

//! Fixed-capacity boolean store backed by one machine integer.
//!
//! A `BetterBool<T>` keeps exactly `T::spec_cap()` boolean slots inside
//! a value of `T`, slot `0` in the least significant bit, together with
//! a cursor for sequential access.  Checked operations validate the
//! position at run time and report `BBoolError`; the unchecked variants
//! demand a valid position from the caller instead and carry that
//! demand as a precondition.

use vstd::prelude::*;

use crate::error::BBoolError;
use crate::traits::{BitwiseOpsClone, BitwiseOpsCopy, Nums};

verus! {

/// Type alias for a 128-bit `BetterBool`.
pub type B128 = BetterBool<u128>;

/// Type alias for a 64-bit `BetterBool`.
pub type B64 = BetterBool<u64>;

/// Type alias for a 32-bit `BetterBool`.
pub type B32 = BetterBool<u32>;

/// Type alias for a 16-bit `BetterBool`.
pub type B16 = BetterBool<u16>;

/// Type alias for an 8-bit `BetterBool`.
pub type B8 = BetterBool<u8>;

/// Generic type alias for `BetterBool` with any supported backing type.
pub type BBool<T> = BetterBool<T>;

/// A fixed-size boolean collection stored inside a numeric value.
pub struct BetterBool<T: Nums> {
    /// The numeric value storing the boolean bits.
    pub store: T,
    /// Current position of the reader head (checked reads need it in
    /// `[0, CAP)`).
    pub reader_head_pos: u8,
}

/// The store that `from_num` builds: the given raw value, cursor at zero.
pub open spec fn from_num_spec<T: Nums>(initial_value: T) -> BetterBool<T> {
    BetterBool { store: initial_value, reader_head_pos: 0 }
}

/// The number of `true` entries of a boolean sequence.
pub open spec fn count_trues(s: Seq<bool>) -> nat
    decreases s.len(),
{
    if s.len() == 0 {
        0
    } else {
        count_trues(s.drop_last()) + if s.last() {
            1nat
        } else {
            0nat
        }
    }
}

/// A `true` count never exceeds the sequence length.
pub proof fn lemma_count_le_len(s: Seq<bool>)
    ensures
        count_trues(s) <= s.len(),
    decreases s.len(),
{
    if s.len() > 0 {
        lemma_count_le_len(s.drop_last());
    }
}

/// Extending a prefix by one element adds that element's contribution
/// to the `true` count.
pub proof fn lemma_count_take_step(s: Seq<bool>, i: int)
    requires
        0 <= i < s.len(),
    ensures
        count_trues(s.take(i + 1)) == count_trues(s.take(i)) + if s[i] {
            1nat
        } else {
            0nat
        },
{
    assert(s.take(i + 1).drop_last() =~= s.take(i));
    assert(s.take(i + 1).last() == s[i]);
}

/// Law: a sequence that is `false` on the first `n - k` slots and
/// `true` on the last `k` has exactly `k` entries set.  Together with
/// the contract of `sorted`, the sorted store keeps the count of its
/// source.
pub proof fn lemma_sorted_layout_count(n: nat, k: nat)
    requires
        k <= n,
    ensures
        count_trues(Seq::new(n, |i: int| i >= n - k)) == k,
    decreases n,
{
    let s = Seq::new(n, |i: int| i >= n - k);
    if n == 0 {
        assert(count_trues(s) == 0);
    } else {
        let k2: nat = if k == 0 {
            0
        } else {
            (k - 1) as nat
        };
        lemma_sorted_layout_count((n - 1) as nat, k2);
        assert(s.drop_last() =~= Seq::new((n - 1) as nat, |i: int| i >= n - 1 - k2));
        assert(s.last() == (k >= 1));
    }
}

/// Law: the slot layout that `sorted` promises — `false` first, `true`
/// on the top slots — has exactly as many `true` entries as its source.
pub proof fn lemma_sorted_preserves_count(s: Seq<bool>)
    ensures
        count_trues(Seq::new(s.len(), |i: int| i >= s.len() - count_trues(s))) == count_trues(s),
{
    lemma_count_le_len(s);
    lemma_sorted_layout_count(s.len(), count_trues(s));
}

/// Law: writing slot `pos` of a slot sequence stores exactly the given
/// value there and leaves every other slot unchanged.  The contracts of
/// `set_at_pos` and `get_at_pos` step through this update.
pub proof fn lemma_set_then_get(s: Seq<bool>, pos: int, v: bool)
    requires
        0 <= pos < s.len(),
    ensures
        s.update(pos, v)[pos] == v,
        forall|j: int| 0 <= j < s.len() && j != pos ==> s.update(pos, v)[j] == s[j],
{
}

/// Law: the store seeded from a raw value hands that value back
/// unchanged through `get_raw`.
pub proof fn lemma_raw_round_trip<T: Nums>(x: T)
    ensures
        from_num_spec::<T>(x).store == x,
{
}

impl<T: Nums> BetterBool<T> {
    /// The boolean slots of the store, slot `0` first.
    pub open spec fn bools(self) -> Seq<bool> {
        Seq::new(T::spec_cap() as nat, |i: int| self.store.bit(i as u8))
    }
}

impl<T: Nums> Default for BetterBool<T> {
    fn default() -> (r: Self)
        ensures
            r.reader_head_pos == 0,
            forall|i: int| 0 <= i < r.bools().len() ==> !r.bools()[i],
    {
        BetterBool { store: T::zero(), reader_head_pos: 0 }
    }
}

impl<T: BitwiseOpsCopy> BetterBool<T> {
    /// Creates a new empty `BetterBool` instance: every slot `false`,
    /// cursor at zero.
    #[must_use]
    pub fn new() -> (r: Self)
        ensures
            r.reader_head_pos == 0,
            forall|i: int| 0 <= i < r.bools().len() ==> !r.bools()[i],
    {
        BetterBool { store: T::zero(), reader_head_pos: 0 }
    }

    /// Creates a `BetterBool` seeded with the given raw value.
    pub fn from_num(initial_value: T) -> (r: Self)
        ensures
            r == from_num_spec(initial_value),
    {
        BetterBool { store: initial_value, reader_head_pos: 0 }
    }

    /// The number of slots of this store.
    pub fn capacity() -> (r: u8)
        ensures
            r == T::spec_cap(),
            1 <= r <= 128,
    {
        T::cap()
    }

    /// Returns a `Vec` of all slots, slot `0` first.
    pub fn all(&mut self) -> (r: Result<Vec<bool>, BBoolError>)
        ensures
            *final(self) == *old(self),
            r matches Ok(v) && v@ == old(self).bools(),
    {
        let cap = T::cap();
        let mut out: Vec<bool> = Vec::new();
        let mut i: u8 = 0;
        while i < cap
            invariant
                i <= cap,
                cap == T::spec_cap(),
                *self == *old(self),
                out@ == self.bools().take(i as int),
            decreases cap - i,
        {
            proof {
                assert(self.bools().take(i + 1) =~= self.bools().take(i as int).push(
                    self.bools()[i as int],
                ));
            }
            out.push(self.store.get_bit(i));
            i += 1;
        }
        proof {
            assert(self.bools().take(cap as int) =~= self.bools());
        }
        Ok(out)
    }

    /// Returns a new store whose slots hold the same values sorted
    /// ascending: all `false` slots first, then all `true` slots.
    pub fn sorted(&mut self) -> (r: Result<Self, BBoolError>)
        ensures
            *final(self) == *old(self),
            r matches Ok(b) && b.bools() == Seq::new(
                T::spec_cap() as nat,
                |i: int| i >= T::spec_cap() - count_trues(old(self).bools()),
            ) && b.reader_head_pos == 0,
    {
        let cap = T::cap();
        let mut k: u8 = 0;
        let mut i: u8 = 0;
        while i < cap
            invariant
                i <= cap,
                k <= i,
                cap == T::spec_cap(),
                *self == *old(self),
                k as nat == count_trues(self.bools().take(i as int)),
            decreases cap - i,
        {
            proof {
                lemma_count_take_step(self.bools(), i as int);
            }
            if self.store.get_bit(i) {
                k += 1;
            }
            i += 1;
        }
        proof {
            assert(self.bools().take(cap as int) =~= self.bools());
        }
        let ghost target = Seq::new(
            T::spec_cap() as nat,
            |i: int| i >= T::spec_cap() - count_trues(old(self).bools()),
        );
        let mut out = Self::new();
        let mut i: u8 = 0;
        while i < cap
            invariant
                i <= cap,
                k <= cap,
                cap == T::spec_cap(),
                *self == *old(self),
                k as nat == count_trues(old(self).bools()),
                out.reader_head_pos == 0,
                forall|j: int| 0 <= j < i ==> out.bools()[j] == (j >= cap - k),
                forall|j: int| i <= j < cap ==> !out.bools()[j],
            decreases cap - i,
        {
            if i >= cap - k {
                out.set_unchecked_at_pos(i, true);
            }
            i += 1;
        }
        proof {
            assert(out.bools() =~= target);
        }
        Ok(out)
    }

    /// Gets the slot at the current head position.
    pub fn get(&self) -> (r: Result<bool, BBoolError>)
        ensures
            self.reader_head_pos < T::spec_cap() ==> r == Ok::<bool, BBoolError>(
                self.bools()[self.reader_head_pos as int],
            ),
            self.reader_head_pos >= T::spec_cap() ==> r == Err::<bool, BBoolError>(
                BBoolError::InvalidHeadPos(self.reader_head_pos),
            ),
    {
        if self.reader_head_pos < T::cap() {
            Ok(self.store.get_bit(self.reader_head_pos))
        } else {
            Err(BBoolError::InvalidHeadPos(self.reader_head_pos))
        }
    }

    /// Gets the slot at the given position.
    pub fn get_at_pos(&self, pos: u8) -> (r: Result<bool, BBoolError>)
        ensures
            pos < T::spec_cap() ==> r == Ok::<bool, BBoolError>(self.bools()[pos as int]),
            pos >= T::spec_cap() ==> r == Err::<bool, BBoolError>(BBoolError::InvalidPos(pos)),
    {
        if pos < T::cap() {
            Ok(self.store.get_bit(pos))
        } else {
            Err(BBoolError::InvalidPos(pos))
        }
    }

    /// Gets the slot at the current head position without a run-time
    /// check; the caller must guarantee that the head is in range.
    pub fn get_unchecked(&self) -> (r: bool)
        requires
            self.reader_head_pos < T::spec_cap(),
        ensures
            r == self.bools()[self.reader_head_pos as int],
    {
        self.store.get_bit(self.reader_head_pos)
    }

    /// Gets the slot at the given position without a run-time check;
    /// the caller must guarantee that the position is in range.
    pub fn get_unchecked_at_pos(&self, pos: u8) -> (r: bool)
        requires
            pos < T::spec_cap(),
        ensures
            r == self.bools()[pos as int],
    {
        self.store.get_bit(pos)
    }

    /// Immutable reference to the raw backing value.
    pub fn get_raw(&self) -> (r: &T)
        ensures
            *r == self.store,
    {
        &self.store
    }

    /// Mutable reference to the raw backing value.
    pub fn get_raw_mut(&mut self) -> (r: &mut T)
        ensures
            *r == old(self).store,
            final(self).store == *final(r),
            final(self).reader_head_pos == old(self).reader_head_pos,
    {
        &mut self.store
    }

    /// Sets the slot at the current head position.
    pub fn set(&mut self, new: bool) -> (r: Result<(), BBoolError>)
        ensures
            old(self).reader_head_pos < T::spec_cap() ==> r == Ok::<(), BBoolError>(())
                && final(self).bools() == old(self).bools().update(
                old(self).reader_head_pos as int,
                new,
            ) && final(self).reader_head_pos == old(self).reader_head_pos,
            old(self).reader_head_pos >= T::spec_cap() ==> r == Err::<(), BBoolError>(
                BBoolError::InvalidHeadPos(old(self).reader_head_pos),
            ) && *final(self) == *old(self),
    {
        if self.reader_head_pos < T::cap() {
            self.store = self.store.set_bit(self.reader_head_pos, new);
            proof {
                assert(self.bools() =~= old(self).bools().update(
                    old(self).reader_head_pos as int,
                    new,
                ));
            }
            Ok(())
        } else {
            Err(BBoolError::InvalidHeadPos(self.reader_head_pos))
        }
    }

    /// Sets the slot at the given position.
    pub fn set_at_pos(&mut self, pos: u8, new: bool) -> (r: Result<(), BBoolError>)
        ensures
            pos < T::spec_cap() ==> r == Ok::<(), BBoolError>(()) && final(self).bools() == old(self).bools().update(pos as int, new) && final(self).reader_head_pos == old(self).reader_head_pos,
            pos >= T::spec_cap() ==> r == Err::<(), BBoolError>(BBoolError::InvalidPos(pos))
                && *final(self) == *old(self),
    {
        if pos < T::cap() {
            self.store = self.store.set_bit(pos, new);
            proof {
                assert(self.bools() =~= old(self).bools().update(pos as int, new));
            }
            Ok(())
        } else {
            Err(BBoolError::InvalidPos(pos))
        }
    }

    /// Sets the slot at the current head position without a run-time
    /// check; the caller must guarantee that the head is in range.
    pub fn set_unchecked(&mut self, new: bool)
        requires
            old(self).reader_head_pos < T::spec_cap(),
        ensures
            final(self).bools() == old(self).bools().update(old(self).reader_head_pos as int, new),
            final(self).reader_head_pos == old(self).reader_head_pos,
    {
        self.store = self.store.set_bit(self.reader_head_pos, new);
        proof {
            assert(self.bools() =~= old(self).bools().update(
                old(self).reader_head_pos as int,
                new,
            ));
        }
    }

    /// Sets the slot at the given position without a run-time check;
    /// the caller must guarantee that the position is in range.
    pub fn set_unchecked_at_pos(&mut self, pos: u8, new: bool)
        requires
            pos < T::spec_cap(),
        ensures
            final(self).bools() == old(self).bools().update(pos as int, new),
            final(self).reader_head_pos == old(self).reader_head_pos,
    {
        self.store = self.store.set_bit(pos, new);
        proof {
            assert(self.bools() =~= old(self).bools().update(pos as int, new));
        }
    }

    /// Gets the value at the current head position and advances the
    /// head.  Fails, without moving, when the head is out of range or
    /// on the last slot.
    pub fn next_b(&mut self) -> (r: Result<bool, BBoolError>)
        ensures
            final(self).store == old(self).store,
            old(self).reader_head_pos + 1 < T::spec_cap() ==> r == Ok::<bool, BBoolError>(
                old(self).bools()[old(self).reader_head_pos as int],
            ) && final(self).reader_head_pos == old(self).reader_head_pos + 1,
            old(self).reader_head_pos + 1 >= T::spec_cap() ==> r == Err::<bool, BBoolError>(
                BBoolError::InvalidHeadPos(old(self).reader_head_pos),
            ) && final(self).reader_head_pos == old(self).reader_head_pos,
    {
        let val = match self.get() {
            Ok(v) => v,
            Err(e) => {
                return Err(e);
            },
        };
        match self.inc() {
            Ok(()) => Ok(val),
            Err(e) => Err(e),
        }
    }

    /// Gets the value at the current head position, wipes the slot, and
    /// advances the head.  When the head sits on the last slot the slot
    /// is still wiped, but the advance fails and the head stays.
    pub fn next_b_res(&mut self) -> (r: Result<bool, BBoolError>)
        ensures
            old(self).reader_head_pos >= T::spec_cap() ==> r == Err::<bool, BBoolError>(
                BBoolError::InvalidHeadPos(old(self).reader_head_pos),
            ) && *final(self) == *old(self),
            old(self).reader_head_pos < T::spec_cap() ==> final(self).bools() == old(self).bools().update(old(self).reader_head_pos as int, false),
            old(self).reader_head_pos + 1 < T::spec_cap() ==> r == Ok::<bool, BBoolError>(
                old(self).bools()[old(self).reader_head_pos as int],
            ) && final(self).reader_head_pos == old(self).reader_head_pos + 1,
            old(self).reader_head_pos < T::spec_cap() && old(self).reader_head_pos + 1
                >= T::spec_cap() ==> r == Err::<bool, BBoolError>(
                BBoolError::InvalidHeadPos(old(self).reader_head_pos),
            ) && final(self).reader_head_pos == old(self).reader_head_pos,
    {
        let val = match self.get() {
            Ok(v) => v,
            Err(e) => {
                return Err(e);
            },
        };
        match self.set(false) {
            Ok(()) => (),
            Err(e) => {
                return Err(e);
            },
        }
        match self.inc() {
            Ok(()) => Ok(val),
            Err(e) => Err(e),
        }
    }

    /// Advances the head by one.  Fails when the head would leave the
    /// valid range.
    pub fn inc(&mut self) -> (r: Result<(), BBoolError>)
        ensures
            final(self).store == old(self).store,
            old(self).reader_head_pos + 1 < T::spec_cap() ==> r == Ok::<(), BBoolError>(())
                && final(self).reader_head_pos == old(self).reader_head_pos + 1,
            old(self).reader_head_pos + 1 >= T::spec_cap() ==> r == Err::<(), BBoolError>(
                BBoolError::InvalidHeadPos(old(self).reader_head_pos),
            ) && final(self).reader_head_pos == old(self).reader_head_pos,
    {
        if self.reader_head_pos < T::cap() - 1 {
            self.reader_head_pos += 1;
            Ok(())
        } else {
            Err(BBoolError::InvalidHeadPos(self.reader_head_pos))
        }
    }

    /// Advances the head by one without a run-time check; the caller
    /// must guarantee that the new head position is valid.
    pub fn inc_unchecked(&mut self)
        requires
            old(self).reader_head_pos + 1 < T::spec_cap(),
        ensures
            final(self).store == old(self).store,
            final(self).reader_head_pos == old(self).reader_head_pos + 1,
    {
        self.reader_head_pos += 1;
    }

    /// Sets the head position without a run-time check; the caller must
    /// guarantee that the new head position is valid.
    pub fn shp_unchecked(&mut self, new: u8)
        requires
            new < T::spec_cap(),
        ensures
            final(self).store == old(self).store,
            final(self).reader_head_pos == new,
    {
        self.reader_head_pos = new;
    }

    /// Sets the head position.  Fails when the new position is out of
    /// range.
    pub fn shp(&mut self, new: u8) -> (r: Result<(), BBoolError>)
        ensures
            final(self).store == old(self).store,
            new < T::spec_cap() ==> r == Ok::<(), BBoolError>(()) && final(self).reader_head_pos
                == new,
            new >= T::spec_cap() ==> r == Err::<(), BBoolError>(BBoolError::InvalidHeadPos(new))
                && final(self).reader_head_pos == old(self).reader_head_pos,
    {
        if new < T::cap() {
            self.reader_head_pos = new;
            Ok(())
        } else {
            Err(BBoolError::InvalidHeadPos(new))
        }
    }

    /// Immutable reference to the current head position.
    pub fn ghp(&self) -> (r: &u8)
        ensures
            *r == self.reader_head_pos,
    {
        &self.reader_head_pos
    }

    /// Mutable reference to the current head position.  Writes through
    /// it bypass the checked API; later checked calls validate again.
    pub fn ghp_mut(&mut self) -> (r: &mut u8)
        ensures
            *r == old(self).reader_head_pos,
            final(self).reader_head_pos == *final(r),
            final(self).store == old(self).store,
    {
        &mut self.reader_head_pos
    }

    /// Clears every slot; the head position is untouched.
    pub fn clear(&mut self)
        ensures
            forall|i: int| 0 <= i < final(self).bools().len() ==> !final(self).bools()[i],
            final(self).reader_head_pos == old(self).reader_head_pos,
    {
        self.store = T::zero();
    }
}

impl<T: BitwiseOpsClone> BetterBool<T> {
    /// Gets the slot at the current head position, reading a clone of
    /// the backing value.
    pub fn get_cl(&self) -> (r: Result<bool, BBoolError>)
        ensures
            self.reader_head_pos < T::spec_cap() ==> r == Ok::<bool, BBoolError>(
                self.bools()[self.reader_head_pos as int],
            ),
            self.reader_head_pos >= T::spec_cap() ==> r == Err::<bool, BBoolError>(
                BBoolError::InvalidHeadPos(self.reader_head_pos),
            ),
    {
        if self.reader_head_pos < T::cap() {
            Ok(self.store.get_bit_cl(self.reader_head_pos))
        } else {
            Err(BBoolError::InvalidHeadPos(self.reader_head_pos))
        }
    }

    /// Gets the slot at the current head position without a run-time
    /// check, reading a clone of the backing value.
    pub fn get_unchecked_cl(&self) -> (r: bool)
        requires
            self.reader_head_pos < T::spec_cap(),
        ensures
            r == self.bools()[self.reader_head_pos as int],
    {
        self.store.get_bit_cl(self.reader_head_pos)
    }

    /// Gets the slot at the given position, reading a clone of the
    /// backing value.
    pub fn get_cl_at_pos(&self, pos: u8) -> (r: Result<bool, BBoolError>)
        ensures
            pos < T::spec_cap() ==> r == Ok::<bool, BBoolError>(self.bools()[pos as int]),
            pos >= T::spec_cap() ==> r == Err::<bool, BBoolError>(BBoolError::InvalidPos(pos)),
    {
        if pos < T::cap() {
            Ok(self.store.get_bit_cl(pos))
        } else {
            Err(BBoolError::InvalidPos(pos))
        }
    }

    /// Gets the slot at the given position without a run-time check,
    /// reading a clone of the backing value.
    pub fn get_unchecked_cl_at_pos(&self, pos: u8) -> (r: bool)
        requires
            pos < T::spec_cap(),
        ensures
            r == self.bools()[pos as int],
    {
        self.store.get_bit_cl(pos)
    }

    /// A clone of the raw backing value.
    pub fn get_raw_cl(&self) -> (r: T)
        ensures
            r == self.store,
    {
        self.store.val_cl()
    }
}

} // verus!

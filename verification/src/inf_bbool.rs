//! Unbounded boolean store backed by a growable byte vector.
//!
//! Bit `i` lives in byte `i / 8` at offset `i % 8`.  Reads beyond the
//! backing length are sparse: they return `false` instead of failing.
//! Writes extend the backing with zero bytes up to and including the
//! needed byte, so a write never shrinks the backing.  The addressable
//! range is capped at the platform's maximum index to keep the head
//! arithmetic well defined.

use vstd::prelude::*;

use crate::bbool::count_trues;
use crate::error::BBoolError;
use crate::traits::{BitwiseOpsCopy, Nums};

verus! {

/// Type alias for the unbounded `BetterBool` implementation.
pub type BInf = BetterBoolInf;

/// Whether bit `pos` of the packed byte sequence is set; positions past
/// the backing read as `false`.
pub open spec fn inf_bit(bytes: Seq<u8>, pos: int) -> bool {
    0 <= pos && pos / 8 < bytes.len() && bytes[pos / 8].bit((pos % 8) as u8)
}

/// Law: a slot that the backing does not cover reads as `false`; only
/// writes that reach its byte can change that.
pub proof fn lemma_sparse_read_false(bytes: Seq<u8>, pos: int)
    requires
        pos >= 8 * bytes.len(),
    ensures
        !inf_bit(bytes, pos),
{
    if pos / 8 < bytes.len() {
        vstd::arithmetic::div_mod::lemma_fundamental_div_mod(pos, 8);
    }
}

/// The backing length, in bytes, after a write to the given bit: the
/// old length when the bit's byte is already covered, else just enough
/// bytes to cover it.
pub open spec fn grown_len(old_len: int, pos: int) -> int {
    if pos / 8 < old_len {
        old_len
    } else {
        pos / 8 + 1
    }
}

/// A dynamically-sized boolean collection backed by a byte vector.
#[derive(Clone, Debug)]
pub struct BetterBoolInf {
    /// The vector storing the boolean bits as bytes.
    pub store: Vec<u8>,
    /// Current position of the reader head.
    pub reader_head_pos: usize,
}

impl Default for BetterBoolInf {
    fn default() -> (r: Self)
        ensures
            r.store@.len() == 0,
            r.reader_head_pos == 0,
    {
        BetterBoolInf { store: Vec::new(), reader_head_pos: 0 }
    }
}

impl BetterBoolInf {
    /// The addressable position limit of the store.
    pub open spec fn spec_cap() -> usize {
        usize::MAX
    }

    /// Whether bit `pos` of this store is set; unwritten slots read as
    /// `false`.
    pub open spec fn bit_at(self, pos: int) -> bool {
        inf_bit(self.store@, pos)
    }

    /// The boolean slots that the backing currently materialises.
    pub open spec fn bools(self) -> Seq<bool> {
        Seq::new(self.store@.len() * 8, |i: int| self.bit_at(i))
    }

    /// Creates a new empty store.
    #[must_use]
    pub fn new() -> (r: Self)
        ensures
            r.store@.len() == 0,
            r.reader_head_pos == 0,
    {
        BetterBoolInf { store: Vec::new(), reader_head_pos: 0 }
    }

    /// Creates an empty store whose backing pre-reserves room for the
    /// given number of bits without changing the logical length.
    #[must_use]
    pub fn with_cap(cap: usize) -> (r: Self)
        ensures
            r.store@.len() == 0,
            r.reader_head_pos == 0,
    {
        BetterBoolInf { store: Vec::with_capacity(cap / 8), reader_head_pos: 0 }
    }

    /// The number of bits the backing has room for before it must grow
    /// again.  The value mirrors what the allocator granted, so nothing
    /// beyond "at least eight bits per stored byte" can be promised.
    #[must_use]
    pub fn cap(&self) -> (r: usize)
        ensures
            self.store@.len() * 8 <= usize::MAX ==> r >= self.store@.len() * 8,
    {
        let c = vec_capacity_bytes(&self.store);
        if c <= usize::MAX / 8 {
            c * 8
        } else {
            usize::MAX
        }
    }

    /// Creates a store over the given initial bytes.
    #[must_use]
    pub fn from_vec(initial_value: Vec<u8>) -> (r: Self)
        ensures
            r.store@ == initial_value@,
            r.reader_head_pos == 0,
    {
        BetterBoolInf { store: initial_value, reader_head_pos: 0 }
    }

    /// Returns a `Vec` of the boolean values in `[start, end)`.
    pub fn range(&self, start: usize, end: usize) -> (r: Result<Vec<bool>, BBoolError>)
        ensures
            start >= Self::spec_cap() ==> r == Err::<Vec<bool>, BBoolError>(
                BBoolError::InvalidPosInf(start),
            ),
            start < Self::spec_cap() && end < start ==> r == Err::<Vec<bool>, BBoolError>(
                BBoolError::InvalidRange(start, end),
            ),
            start < Self::spec_cap() && end >= start ==> (r matches Ok(v) && v@.len() == end
                - start && forall|i: int| 0 <= i < end - start ==> v@[i] == self.bit_at(start + i)),
    {
        if start >= usize::MAX {
            return Err(BBoolError::InvalidPosInf(start));
        }
        if end < start {
            return Err(BBoolError::InvalidRange(start, end));
        }
        let mut result: Vec<bool> = Vec::new();
        let mut pos = start;
        while pos < end
            invariant
                start <= pos <= end,
                result@.len() == pos - start,
                forall|i: int| 0 <= i < pos - start ==> result@[i] == self.bit_at(start + i),
            decreases end - pos,
        {
            result.push(self.read_bit(pos));
            pos += 1;
        }
        Ok(result)
    }

    /// Returns a `Vec` of every materialised slot, slot `0` first.
    pub fn all(&self) -> (r: Result<Vec<bool>, BBoolError>)
        requires
            self.store@.len() * 8 <= usize::MAX,
        ensures
            r matches Ok(v) && v@ == self.bools(),
    {
        let total = self.store.len() * 8;
        let mut out: Vec<bool> = Vec::new();
        let mut i: usize = 0;
        while i < total
            invariant
                i <= total,
                total == self.store@.len() * 8,
                out@.len() == i,
                forall|j: int| 0 <= j < i ==> out@[j] == self.bit_at(j),
            decreases total - i,
        {
            out.push(self.read_bit(i));
            i += 1;
        }
        proof {
            assert(out@ =~= self.bools());
        }
        Ok(out)
    }

    /// Returns a new store holding the same materialised values sorted
    /// ascending: all `false` slots first, then all `true` slots.
    pub fn sorted(&self) -> (r: Result<Self, BBoolError>)
        requires
            self.store@.len() * 8 <= usize::MAX,
        ensures
            r matches Ok(b) && b.reader_head_pos == 0 && (forall|i: int|
                0 <= i < self.bools().len() ==> b.bit_at(i) == (i >= self.bools().len()
                    - count_trues(self.bools()))) && (forall|i: int|
                i >= self.bools().len() ==> !b.bit_at(i)),
    {
        let total = self.store.len() * 8;
        let mut k: usize = 0;
        let mut i: usize = 0;
        while i < total
            invariant
                i <= total,
                k <= i,
                total == self.store@.len() * 8,
                k as nat == count_trues(self.bools().take(i as int)),
            decreases total - i,
        {
            proof {
                crate::bbool::lemma_count_take_step(self.bools(), i as int);
            }
            if self.read_bit(i) {
                k += 1;
            }
            i += 1;
        }
        proof {
            assert(self.bools().take(total as int) =~= self.bools());
        }
        let mut out = Self::new();
        let mut i: usize = 0;
        while i < total
            invariant
                i <= total,
                k <= total,
                total == self.store@.len() * 8,
                k as nat == count_trues(self.bools()),
                out.reader_head_pos == 0,
                forall|j: int| 0 <= j < i ==> out.bit_at(j) == (j >= total - k),
                forall|j: int| j >= i ==> !out.bit_at(j),
            decreases total - i,
        {
            out.write_bit(i, i >= total - k);
            i += 1;
        }
        Ok(out)
    }

    /// Gets the slot at the current head position; an unwritten slot
    /// reads as `false`.
    pub fn get(&self) -> (r: Result<bool, BBoolError>)
        ensures
            self.reader_head_pos < Self::spec_cap() ==> r == Ok::<bool, BBoolError>(
                self.bit_at(self.reader_head_pos as int),
            ),
            self.reader_head_pos >= Self::spec_cap() ==> r == Err::<bool, BBoolError>(
                BBoolError::InvalidHeadPosInf(self.reader_head_pos),
            ),
    {
        if self.reader_head_pos < usize::MAX {
            Ok(self.read_bit(self.reader_head_pos))
        } else {
            Err(BBoolError::InvalidHeadPosInf(self.reader_head_pos))
        }
    }

    /// Gets the slot at the given position; an unwritten slot reads as
    /// `false`.
    pub fn get_at_pos(&self, pos: usize) -> (r: Result<bool, BBoolError>)
        ensures
            pos < Self::spec_cap() ==> r == Ok::<bool, BBoolError>(self.bit_at(pos as int)),
            pos >= Self::spec_cap() ==> r == Err::<bool, BBoolError>(
                BBoolError::InvalidPosInf(pos),
            ),
    {
        if pos < usize::MAX {
            Ok(self.read_bit(pos))
        } else {
            Err(BBoolError::InvalidPosInf(pos))
        }
    }

    /// Gets the slot at the current head position without a run-time
    /// check; the caller must guarantee that the head is in range.
    #[must_use]
    pub fn get_unchecked(&self) -> (r: bool)
        requires
            self.reader_head_pos < Self::spec_cap(),
        ensures
            r == self.bit_at(self.reader_head_pos as int),
    {
        self.read_bit(self.reader_head_pos)
    }

    /// Gets the slot at the given position without a run-time check;
    /// the caller must guarantee that the position is in range.
    #[must_use]
    pub fn get_unchecked_at_pos(&self, pos: usize) -> (r: bool)
        requires
            pos < Self::spec_cap(),
        ensures
            r == self.bit_at(pos as int),
    {
        self.read_bit(pos)
    }

    /// Sets the slot at the current head position without a run-time
    /// check; the caller must guarantee that the head is in range.
    pub fn set_unchecked(&mut self, new: bool)
        requires
            old(self).reader_head_pos < Self::spec_cap(),
        ensures
            final(self).reader_head_pos == old(self).reader_head_pos,
            final(self).store@.len() >= old(self).store@.len(),
            final(self).store@.len() == grown_len(
                old(self).store@.len() as int,
                old(self).reader_head_pos as int,
            ),
            final(self).bit_at(old(self).reader_head_pos as int) == new,
            forall|j: int|
                0 <= j && j != old(self).reader_head_pos ==> final(self).bit_at(j) == old(self).bit_at(j),
    {
        let pos = self.reader_head_pos;
        self.write_bit(pos, new);
    }

    /// Sets the slot at the given position without a run-time check;
    /// the caller must guarantee that the position is in range.
    pub fn set_unchecked_at_pos(&mut self, pos: usize, new: bool)
        requires
            pos < Self::spec_cap(),
        ensures
            final(self).reader_head_pos == old(self).reader_head_pos,
            final(self).store@.len() >= old(self).store@.len(),
            final(self).store@.len() == grown_len(old(self).store@.len() as int, pos as int),
            final(self).bit_at(pos as int) == new,
            forall|j: int| 0 <= j && j != pos ==> final(self).bit_at(j) == old(self).bit_at(j),
    {
        self.write_bit(pos, new);
    }

    /// Immutable reference to the raw backing bytes.
    #[must_use]
    pub fn get_raw(&self) -> (r: &Vec<u8>)
        ensures
            r@ == self.store@,
    {
        &self.store
    }

    /// Mutable reference to the raw backing bytes.
    pub fn get_raw_mut(&mut self) -> (r: &mut Vec<u8>)
        ensures
            (*r)@ == old(self).store@,
            final(self).store@ == (*final(r))@,
            final(self).reader_head_pos == old(self).reader_head_pos,
    {
        &mut self.store
    }

    /// Sets the slot at the current head position, growing the backing
    /// when the slot lies beyond it.
    pub fn set(&mut self, new: bool) -> (r: Result<(), BBoolError>)
        ensures
            old(self).reader_head_pos < Self::spec_cap() ==> r == Ok::<(), BBoolError>(()) && final(self).bit_at(old(self).reader_head_pos as int) == new && (forall|j: int|
                0 <= j && j != old(self).reader_head_pos ==> final(self).bit_at(j) == old(self).bit_at(j)) && final(self).store@.len() >= old(self).store@.len() && final(self).store@.len()
                == grown_len(old(self).store@.len() as int, old(self).reader_head_pos as int)
                && final(self).reader_head_pos == old(self).reader_head_pos,
            old(self).reader_head_pos >= Self::spec_cap() ==> r == Err::<(), BBoolError>(
                BBoolError::InvalidHeadPosInf(old(self).reader_head_pos),
            ) && *final(self) == *old(self),
    {
        if self.reader_head_pos < usize::MAX {
            let pos = self.reader_head_pos;
            self.write_bit(pos, new);
            Ok(())
        } else {
            Err(BBoolError::InvalidHeadPosInf(self.reader_head_pos))
        }
    }

    /// Sets the slot at the given position, growing the backing when
    /// the slot lies beyond it.
    pub fn set_at_pos(&mut self, pos: usize, new: bool) -> (r: Result<(), BBoolError>)
        ensures
            pos < Self::spec_cap() ==> r == Ok::<(), BBoolError>(()) && final(self).bit_at(
                pos as int,
            ) == new && (forall|j: int|
                0 <= j && j != pos ==> final(self).bit_at(j) == old(self).bit_at(j)) && final(self).store@.len() >= old(self).store@.len() && final(self).store@.len() == grown_len(
                old(self).store@.len() as int,
                pos as int,
            ) && final(self).reader_head_pos == old(self).reader_head_pos,
            pos >= Self::spec_cap() ==> r == Err::<(), BBoolError>(BBoolError::InvalidPosInf(pos))
                && *final(self) == *old(self),
    {
        if pos < usize::MAX {
            self.write_bit(pos, new);
            Ok(())
        } else {
            Err(BBoolError::InvalidPosInf(pos))
        }
    }

    /// Gets the value at the current head position and advances the
    /// head.  Fails, without moving, when the head cannot advance.
    pub fn next_b(&mut self) -> (r: Result<bool, BBoolError>)
        ensures
            final(self).store@ == old(self).store@,
            old(self).reader_head_pos + 1 < Self::spec_cap() ==> r == Ok::<bool, BBoolError>(
                old(self).bit_at(old(self).reader_head_pos as int),
            ) && final(self).reader_head_pos == old(self).reader_head_pos + 1,
            old(self).reader_head_pos + 1 >= Self::spec_cap() ==> r == Err::<bool, BBoolError>(
                BBoolError::InvalidHeadPosInf(old(self).reader_head_pos),
            ) && final(self).reader_head_pos == old(self).reader_head_pos,
    {
        let val = match self.get() {
            Ok(v) => v,
            Err(e) => {
                return Err(e);
            },
        };
        match self.inc() {
            Ok(()) => Ok(val),
            Err(e) => Err(e),
        }
    }

    /// Gets the value at the current head position, wipes the slot, and
    /// advances the head.  When the head cannot advance the slot is
    /// still wiped, but the advance fails and the head stays.
    pub fn next_b_res(&mut self) -> (r: Result<bool, BBoolError>)
        ensures
            old(self).reader_head_pos < Self::spec_cap() ==> final(self).bit_at(
                old(self).reader_head_pos as int,
            ) == false && (forall|j: int|
                0 <= j && j != old(self).reader_head_pos ==> final(self).bit_at(j) == old(self).bit_at(j)) && final(self).store@.len() == grown_len(
                old(self).store@.len() as int,
                old(self).reader_head_pos as int,
            ),
            old(self).reader_head_pos + 1 < Self::spec_cap() ==> r == Ok::<bool, BBoolError>(
                old(self).bit_at(old(self).reader_head_pos as int),
            ) && final(self).reader_head_pos == old(self).reader_head_pos + 1,
            old(self).reader_head_pos < Self::spec_cap() && old(self).reader_head_pos + 1
                >= Self::spec_cap() ==> r == Err::<bool, BBoolError>(
                BBoolError::InvalidHeadPosInf(old(self).reader_head_pos),
            ) && final(self).reader_head_pos == old(self).reader_head_pos,
            old(self).reader_head_pos >= Self::spec_cap() ==> r == Err::<bool, BBoolError>(
                BBoolError::InvalidHeadPosInf(old(self).reader_head_pos),
            ) && *final(self) == *old(self),
    {
        let val = match self.get() {
            Ok(v) => v,
            Err(e) => {
                return Err(e);
            },
        };
        match self.set(false) {
            Ok(()) => (),
            Err(e) => {
                return Err(e);
            },
        }
        match self.inc() {
            Ok(()) => Ok(val),
            Err(e) => Err(e),
        }
    }

    /// Advances the head by one.  Fails when the head would leave the
    /// addressable range.
    pub fn inc(&mut self) -> (r: Result<(), BBoolError>)
        ensures
            final(self).store@ == old(self).store@,
            old(self).reader_head_pos + 1 < Self::spec_cap() ==> r == Ok::<(), BBoolError>(())
                && final(self).reader_head_pos == old(self).reader_head_pos + 1,
            old(self).reader_head_pos + 1 >= Self::spec_cap() ==> r == Err::<(), BBoolError>(
                BBoolError::InvalidHeadPosInf(old(self).reader_head_pos),
            ) && final(self).reader_head_pos == old(self).reader_head_pos,
    {
        if self.reader_head_pos < usize::MAX - 1 {
            self.reader_head_pos += 1;
            Ok(())
        } else {
            Err(BBoolError::InvalidHeadPosInf(self.reader_head_pos))
        }
    }

    /// Advances the head by one without a run-time check; the caller
    /// must guarantee that the new head position is valid.
    pub fn inc_unchecked(&mut self)
        requires
            old(self).reader_head_pos + 1 < Self::spec_cap(),
        ensures
            final(self).store@ == old(self).store@,
            final(self).reader_head_pos == old(self).reader_head_pos + 1,
    {
        self.reader_head_pos += 1;
    }

    /// Sets the head position without a run-time check; the caller must
    /// guarantee that the new head position is valid.
    pub fn shp_unchecked(&mut self, new: usize)
        requires
            new < Self::spec_cap(),
        ensures
            final(self).store@ == old(self).store@,
            final(self).reader_head_pos == new,
    {
        self.reader_head_pos = new;
    }

    /// Sets the head position.  Fails when the new position lies
    /// outside the addressable range.
    pub fn shp(&mut self, new: usize) -> (r: Result<(), BBoolError>)
        ensures
            final(self).store@ == old(self).store@,
            new < Self::spec_cap() ==> r == Ok::<(), BBoolError>(()) && final(self).reader_head_pos == new,
            new >= Self::spec_cap() ==> r == Err::<(), BBoolError>(
                BBoolError::InvalidHeadPosInf(new),
            ) && final(self).reader_head_pos == old(self).reader_head_pos,
    {
        if new < usize::MAX {
            self.reader_head_pos = new;
            Ok(())
        } else {
            Err(BBoolError::InvalidHeadPosInf(new))
        }
    }

    /// Immutable reference to the current head position.
    #[must_use]
    pub fn ghp(&self) -> (r: &usize)
        ensures
            *r == self.reader_head_pos,
    {
        &self.reader_head_pos
    }

    /// Mutable reference to the current head position.  Writes through
    /// it bypass the checked API; later checked calls validate again.
    pub fn ghp_mut(&mut self) -> (r: &mut usize)
        ensures
            *r == old(self).reader_head_pos,
            final(self).reader_head_pos == *final(r),
            final(self).store@ == old(self).store@,
    {
        &mut self.reader_head_pos
    }

    /// Empties the backing: every slot reads as `false` afterwards; the
    /// head position is untouched.
    pub fn clear(&mut self)
        ensures
            final(self).store@.len() == 0,
            final(self).reader_head_pos == old(self).reader_head_pos,
            forall|j: int| !final(self).bit_at(j),
    {
        self.store.clear();
    }

    /// Reads one bit of the backing; positions past the backing read as
    /// `false`.
    fn read_bit(&self, pos: usize) -> (r: bool)
        ensures
            r == self.bit_at(pos as int),
    {
        let byte_index = pos / 8;
        if byte_index >= self.store.len() {
            return false;
        }
        let bit_offset = (pos % 8) as u8;
        self.store[byte_index].get_bit(bit_offset)
    }

    /// Writes one bit, extending the backing with zero bytes when the
    /// target byte lies beyond it.
    fn write_bit(&mut self, pos: usize, new: bool)
        requires
            pos < usize::MAX,
        ensures
            final(self).reader_head_pos == old(self).reader_head_pos,
            final(self).store@.len() == if pos as int / 8 < old(self).store@.len() {
                old(self).store@.len() as int
            } else {
                pos as int / 8 + 1
            },
            final(self).store@.len() >= old(self).store@.len(),
            final(self).bit_at(pos as int) == new,
            forall|j: int| 0 <= j && j != pos ==> final(self).bit_at(j) == old(self).bit_at(j),
    {
        let byte_index = pos / 8;
        let bit_offset = (pos % 8) as u8;
        while self.store.len() <= byte_index
            invariant
                byte_index == pos as int / 8,
                self.reader_head_pos == old(self).reader_head_pos,
                self.store@.len() >= old(self).store@.len(),
                self.store@.len() == old(self).store@.len() || self.store@.len() <= byte_index + 1,
                forall|j: int| 0 <= j < old(self).store@.len() ==> self.store@[j] == old(self).store@[j],
                forall|j: int|
                    old(self).store@.len() <= j < self.store@.len() ==> self.store@[j] == 0u8,
            decreases byte_index + 1 - self.store@.len(),
        {
            self.store.push(0);
        }
        let ghost padded = self.store@;
        let b = self.store[byte_index];
        let nb = b.set_bit(bit_offset, new);
        self.store[byte_index] = nb;
        proof {
            assert(forall|o: u8| o < 8 ==> !(((0u8 >> o) & 1) == 1)) by (bit_vector);
            vstd::arithmetic::div_mod::lemma_fundamental_div_mod(pos as int, 8);
            assert(self.bit_at(pos as int) == new);
            assert forall|j: int| 0 <= j && j != pos implies self.bit_at(j) == old(self).bit_at(
                j,
            ) by {
                vstd::arithmetic::div_mod::lemma_fundamental_div_mod(j, 8);
                if j / 8 == byte_index {
                    assert((j % 8) as u8 != bit_offset);
                    assert(nb.bit((j % 8) as u8) == b.bit((j % 8) as u8));
                    if byte_index >= old(self).store@.len() {
                        assert(b == 0u8);
                        assert(!old(self).bit_at(j));
                    }
                } else {
                    assert(self.store@[j / 8] == padded[j / 8] || j / 8 >= self.store@.len());
                    if 0 <= j / 8 < self.store@.len() {
                        if j / 8 >= old(self).store@.len() {
                            assert(padded[j / 8] == 0u8);
                            assert(!old(self).bit_at(j));
                        }
                    }
                }
            }
        }
    }
}

/// Relies on `Vec::capacity`: the allocated capacity is at least the
/// vector's length.
#[verifier::external_body]
fn vec_capacity_bytes(v: &Vec<u8>) -> (r: usize)
    ensures
        r >= v@.len(),
{
    v.capacity()
}

} // verus!

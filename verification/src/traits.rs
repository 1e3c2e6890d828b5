//! Capability traits for the numeric types that can back a fixed-size
//! boolean store.
//!
//! A backing type exposes its bit width, a spec-level reading of each
//! bit, and executable primitives (`zero`, `get_bit`, `set_bit`) whose
//! contracts tie them to that reading.  The primitives are proved for
//! every width with bit-vector reasoning, so the stores built on top of
//! them never need to reason about machine words themselves.

use vstd::prelude::*;

verus! {

/// A fixed-width numeric type read as a little-endian vector of bits:
/// bit `0` is the least significant one.
pub trait Nums: Sized {
    /// The number of bit slots of the type.
    spec fn spec_cap() -> u8;

    /// Whether bit `i` of the value is set.
    spec fn bit(self, i: u8) -> bool;

    /// The width, as a run-time value.
    fn cap() -> (r: u8)
        ensures
            r == Self::spec_cap(),
            1 <= r <= 128,
    ;

    /// The all-zero value: every bit slot holds `false`.
    fn zero() -> (r: Self)
        ensures
            forall|i: u8| i < Self::spec_cap() ==> !r.bit(i),
    ;
}

/// Bit access for backing types with copy semantics.
pub trait BitwiseOpsCopy: Nums + Copy {
    /// Reads bit `i`.
    fn get_bit(self, i: u8) -> (r: bool)
        requires
            i < Self::spec_cap(),
        ensures
            r == self.bit(i),
    ;

    /// Returns the value with bit `i` set to `v` and every other bit kept.
    fn set_bit(self, i: u8, v: bool) -> (r: Self)
        requires
            i < Self::spec_cap(),
        ensures
            forall|j: u8|
                j < Self::spec_cap() ==> r.bit(j) == (if j == i {
                    v
                } else {
                    self.bit(j)
                }),
    ;
}

/// Bit access for backing types that are read through explicit clones.
pub trait BitwiseOpsClone: Nums + Clone {
    /// Reads bit `i` from a clone of the value.
    fn get_bit_cl(&self, i: u8) -> (r: bool)
        requires
            i < Self::spec_cap(),
        ensures
            r == self.bit(i),
    ;

    /// Hands out a clone of the value itself.
    fn val_cl(&self) -> (r: Self)
        ensures
            r == *self,
    ;
}

/// A type usable with every store and registry of this crate.
pub trait BoolSupport: BitwiseOpsCopy + BitwiseOpsClone {
}

impl<T: BitwiseOpsCopy + BitwiseOpsClone> BoolSupport for T {
}

impl Nums for u8 {
    open spec fn spec_cap() -> u8 {
        8
    }

    open spec fn bit(self, i: u8) -> bool {
        (self >> i) & 1 == 1
    }

    fn cap() -> (r: u8) {
        8
    }

    fn zero() -> (r: Self) {
        proof {
            assert(forall|i: u8| i < 8 ==> !(((0u8 >> i) & 1) == 1)) by (bit_vector);
        }
        0
    }
}

impl BitwiseOpsCopy for u8 {
    fn get_bit(self, i: u8) -> (r: bool) {
        (self >> i) & 1 == 1
    }

    fn set_bit(self, i: u8, v: bool) -> (r: Self) {
        if v {
            let r = self | (1u8 << i);
            proof {
                assert(forall|j: u8|
                    j < 8 ==> (((r >> j) & 1 == 1) == (j == i || ((self >> j) & 1 == 1))))
                    by (bit_vector)
                    requires
                        r == self | (1u8 << i),
                        i < 8,
                ;
            }
            r
        } else {
            let r = self & !(1u8 << i);
            proof {
                assert(forall|j: u8|
                    j < 8 ==> (((r >> j) & 1 == 1) == (j != i && ((self >> j) & 1 == 1))))
                    by (bit_vector)
                    requires
                        r == self & !(1u8 << i),
                        i < 8,
                ;
            }
            r
        }
    }
}

impl BitwiseOpsClone for u8 {
    fn get_bit_cl(&self, i: u8) -> (r: bool) {
        let v = *self;
        (v >> i) & 1 == 1
    }

    fn val_cl(&self) -> (r: Self) {
        *self
    }
}

impl Nums for u16 {
    open spec fn spec_cap() -> u8 {
        16
    }

    open spec fn bit(self, i: u8) -> bool {
        (self >> i) & 1 == 1
    }

    fn cap() -> (r: u8) {
        16
    }

    fn zero() -> (r: Self) {
        proof {
            assert(forall|i: u8| i < 16 ==> !(((0u16 >> i) & 1) == 1)) by (bit_vector);
        }
        0
    }
}

impl BitwiseOpsCopy for u16 {
    fn get_bit(self, i: u8) -> (r: bool) {
        (self >> i) & 1 == 1
    }

    fn set_bit(self, i: u8, v: bool) -> (r: Self) {
        if v {
            let r = self | (1u16 << i);
            proof {
                assert(forall|j: u8|
                    j < 16 ==> (((r >> j) & 1 == 1) == (j == i || ((self >> j) & 1 == 1))))
                    by (bit_vector)
                    requires
                        r == self | (1u16 << i),
                        i < 16,
                ;
            }
            r
        } else {
            let r = self & !(1u16 << i);
            proof {
                assert(forall|j: u8|
                    j < 16 ==> (((r >> j) & 1 == 1) == (j != i && ((self >> j) & 1 == 1))))
                    by (bit_vector)
                    requires
                        r == self & !(1u16 << i),
                        i < 16,
                ;
            }
            r
        }
    }
}

impl BitwiseOpsClone for u16 {
    fn get_bit_cl(&self, i: u8) -> (r: bool) {
        let v = *self;
        (v >> i) & 1 == 1
    }

    fn val_cl(&self) -> (r: Self) {
        *self
    }
}

impl Nums for u32 {
    open spec fn spec_cap() -> u8 {
        32
    }

    open spec fn bit(self, i: u8) -> bool {
        (self >> i) & 1 == 1
    }

    fn cap() -> (r: u8) {
        32
    }

    fn zero() -> (r: Self) {
        proof {
            assert(forall|i: u8| i < 32 ==> !(((0u32 >> i) & 1) == 1)) by (bit_vector);
        }
        0
    }
}

impl BitwiseOpsCopy for u32 {
    fn get_bit(self, i: u8) -> (r: bool) {
        (self >> i) & 1 == 1
    }

    fn set_bit(self, i: u8, v: bool) -> (r: Self) {
        if v {
            let r = self | (1u32 << i);
            proof {
                assert(forall|j: u8|
                    j < 32 ==> (((r >> j) & 1 == 1) == (j == i || ((self >> j) & 1 == 1))))
                    by (bit_vector)
                    requires
                        r == self | (1u32 << i),
                        i < 32,
                ;
            }
            r
        } else {
            let r = self & !(1u32 << i);
            proof {
                assert(forall|j: u8|
                    j < 32 ==> (((r >> j) & 1 == 1) == (j != i && ((self >> j) & 1 == 1))))
                    by (bit_vector)
                    requires
                        r == self & !(1u32 << i),
                        i < 32,
                ;
            }
            r
        }
    }
}

impl BitwiseOpsClone for u32 {
    fn get_bit_cl(&self, i: u8) -> (r: bool) {
        let v = *self;
        (v >> i) & 1 == 1
    }

    fn val_cl(&self) -> (r: Self) {
        *self
    }
}

impl Nums for u64 {
    open spec fn spec_cap() -> u8 {
        64
    }

    open spec fn bit(self, i: u8) -> bool {
        (self >> i) & 1 == 1
    }

    fn cap() -> (r: u8) {
        64
    }

    fn zero() -> (r: Self) {
        proof {
            assert(forall|i: u8| i < 64 ==> !(((0u64 >> i) & 1) == 1)) by (bit_vector);
        }
        0
    }
}

impl BitwiseOpsCopy for u64 {
    fn get_bit(self, i: u8) -> (r: bool) {
        (self >> i) & 1 == 1
    }

    fn set_bit(self, i: u8, v: bool) -> (r: Self) {
        if v {
            let r = self | (1u64 << i);
            proof {
                assert(forall|j: u8|
                    j < 64 ==> (((r >> j) & 1 == 1) == (j == i || ((self >> j) & 1 == 1))))
                    by (bit_vector)
                    requires
                        r == self | (1u64 << i),
                        i < 64,
                ;
            }
            r
        } else {
            let r = self & !(1u64 << i);
            proof {
                assert(forall|j: u8|
                    j < 64 ==> (((r >> j) & 1 == 1) == (j != i && ((self >> j) & 1 == 1))))
                    by (bit_vector)
                    requires
                        r == self & !(1u64 << i),
                        i < 64,
                ;
            }
            r
        }
    }
}

impl BitwiseOpsClone for u64 {
    fn get_bit_cl(&self, i: u8) -> (r: bool) {
        let v = *self;
        (v >> i) & 1 == 1
    }

    fn val_cl(&self) -> (r: Self) {
        *self
    }
}

impl Nums for u128 {
    open spec fn spec_cap() -> u8 {
        128
    }

    open spec fn bit(self, i: u8) -> bool {
        (self >> i) & 1 == 1
    }

    fn cap() -> (r: u8) {
        128
    }

    fn zero() -> (r: Self) {
        proof {
            assert(forall|i: u8| i < 128 ==> !(((0u128 >> i) & 1) == 1)) by (bit_vector);
        }
        0
    }
}

impl BitwiseOpsCopy for u128 {
    fn get_bit(self, i: u8) -> (r: bool) {
        (self >> i) & 1 == 1
    }

    fn set_bit(self, i: u8, v: bool) -> (r: Self) {
        if v {
            let r = self | (1u128 << i);
            proof {
                assert(forall|j: u8|
                    j < 128 ==> (((r >> j) & 1 == 1) == (j == i || ((self >> j) & 1 == 1))))
                    by (bit_vector)
                    requires
                        r == self | (1u128 << i),
                        i < 128,
                ;
            }
            r
        } else {
            let r = self & !(1u128 << i);
            proof {
                assert(forall|j: u8|
                    j < 128 ==> (((r >> j) & 1 == 1) == (j != i && ((self >> j) & 1 == 1))))
                    by (bit_vector)
                    requires
                        r == self & !(1u128 << i),
                        i < 128,
                ;
            }
            r
        }
    }
}

impl BitwiseOpsClone for u128 {
    fn get_bit_cl(&self, i: u8) -> (r: bool) {
        let v = *self;
        (v >> i) & 1 == 1
    }

    fn val_cl(&self) -> (r: Self) {
        *self
    }
}


impl Nums for i128 {
    open spec fn spec_cap() -> u8 {
        128
    }

    open spec fn bit(self, i: u8) -> bool {
        (self >> i) & 1 == 1
    }

    fn cap() -> (r: u8) {
        128
    }

    fn zero() -> (r: Self) {
        proof {
            assert(forall|i: u8| i < 128 ==> !(((0i128 >> i) & 1) == 1)) by (bit_vector);
        }
        0
    }
}

impl BitwiseOpsCopy for i128 {
    fn get_bit(self, i: u8) -> (r: bool) {
        (self >> i) & 1 == 1
    }

    fn set_bit(self, i: u8, v: bool) -> (r: Self) {
        if v {
            let r = self | (1i128 << i);
            proof {
                assert(forall|j: u8|
                    j < 128 ==> (((r >> j) & 1 == 1) == (j == i || ((self >> j) & 1 == 1))))
                    by (bit_vector)
                    requires
                        r == self | (1i128 << i),
                        i < 128,
                ;
            }
            r
        } else {
            let r = self & !(1i128 << i);
            proof {
                assert(forall|j: u8|
                    j < 128 ==> (((r >> j) & 1 == 1) == (j != i && ((self >> j) & 1 == 1))))
                    by (bit_vector)
                    requires
                        r == self & !(1i128 << i),
                        i < 128,
                ;
            }
            r
        }
    }
}

impl BitwiseOpsClone for i128 {
    fn get_bit_cl(&self, i: u8) -> (r: bool) {
        let v = *self;
        (v >> i) & 1 == 1
    }

    fn val_cl(&self) -> (r: Self) {
        *self
    }
}

impl Nums for i64 {
    open spec fn spec_cap() -> u8 {
        64
    }

    open spec fn bit(self, i: u8) -> bool {
        (self >> i) & 1 == 1
    }

    fn cap() -> (r: u8) {
        64
    }

    fn zero() -> (r: Self) {
        proof {
            assert(forall|i: u8| i < 64 ==> !(((0i64 >> i) & 1) == 1)) by (bit_vector);
        }
        0
    }
}

impl BitwiseOpsCopy for i64 {
    fn get_bit(self, i: u8) -> (r: bool) {
        (self >> i) & 1 == 1
    }

    fn set_bit(self, i: u8, v: bool) -> (r: Self) {
        if v {
            let r = self | (1i64 << i);
            proof {
                assert(forall|j: u8|
                    j < 64 ==> (((r >> j) & 1 == 1) == (j == i || ((self >> j) & 1 == 1))))
                    by (bit_vector)
                    requires
                        r == self | (1i64 << i),
                        i < 64,
                ;
            }
            r
        } else {
            let r = self & !(1i64 << i);
            proof {
                assert(forall|j: u8|
                    j < 64 ==> (((r >> j) & 1 == 1) == (j != i && ((self >> j) & 1 == 1))))
                    by (bit_vector)
                    requires
                        r == self & !(1i64 << i),
                        i < 64,
                ;
            }
            r
        }
    }
}

impl BitwiseOpsClone for i64 {
    fn get_bit_cl(&self, i: u8) -> (r: bool) {
        let v = *self;
        (v >> i) & 1 == 1
    }

    fn val_cl(&self) -> (r: Self) {
        *self
    }
}

impl Nums for i32 {
    open spec fn spec_cap() -> u8 {
        32
    }

    open spec fn bit(self, i: u8) -> bool {
        (self >> i) & 1 == 1
    }

    fn cap() -> (r: u8) {
        32
    }

    fn zero() -> (r: Self) {
        proof {
            assert(forall|i: u8| i < 32 ==> !(((0i32 >> i) & 1) == 1)) by (bit_vector);
        }
        0
    }
}

impl BitwiseOpsCopy for i32 {
    fn get_bit(self, i: u8) -> (r: bool) {
        (self >> i) & 1 == 1
    }

    fn set_bit(self, i: u8, v: bool) -> (r: Self) {
        if v {
            let r = self | (1i32 << i);
            proof {
                assert(forall|j: u8|
                    j < 32 ==> (((r >> j) & 1 == 1) == (j == i || ((self >> j) & 1 == 1))))
                    by (bit_vector)
                    requires
                        r == self | (1i32 << i),
                        i < 32,
                ;
            }
            r
        } else {
            let r = self & !(1i32 << i);
            proof {
                assert(forall|j: u8|
                    j < 32 ==> (((r >> j) & 1 == 1) == (j != i && ((self >> j) & 1 == 1))))
                    by (bit_vector)
                    requires
                        r == self & !(1i32 << i),
                        i < 32,
                ;
            }
            r
        }
    }
}

impl BitwiseOpsClone for i32 {
    fn get_bit_cl(&self, i: u8) -> (r: bool) {
        let v = *self;
        (v >> i) & 1 == 1
    }

    fn val_cl(&self) -> (r: Self) {
        *self
    }
}

impl Nums for i16 {
    open spec fn spec_cap() -> u8 {
        16
    }

    open spec fn bit(self, i: u8) -> bool {
        (self >> i) & 1 == 1
    }

    fn cap() -> (r: u8) {
        16
    }

    fn zero() -> (r: Self) {
        proof {
            assert(forall|i: u8| i < 16 ==> !(((0i16 >> i) & 1) == 1)) by (bit_vector);
        }
        0
    }
}

impl BitwiseOpsCopy for i16 {
    fn get_bit(self, i: u8) -> (r: bool) {
        (self >> i) & 1 == 1
    }

    fn set_bit(self, i: u8, v: bool) -> (r: Self) {
        if v {
            let r = self | (1i16 << i);
            proof {
                assert(forall|j: u8|
                    j < 16 ==> (((r >> j) & 1 == 1) == (j == i || ((self >> j) & 1 == 1))))
                    by (bit_vector)
                    requires
                        r == self | (1i16 << i),
                        i < 16,
                ;
            }
            r
        } else {
            let r = self & !(1i16 << i);
            proof {
                assert(forall|j: u8|
                    j < 16 ==> (((r >> j) & 1 == 1) == (j != i && ((self >> j) & 1 == 1))))
                    by (bit_vector)
                    requires
                        r == self & !(1i16 << i),
                        i < 16,
                ;
            }
            r
        }
    }
}

impl BitwiseOpsClone for i16 {
    fn get_bit_cl(&self, i: u8) -> (r: bool) {
        let v = *self;
        (v >> i) & 1 == 1
    }

    fn val_cl(&self) -> (r: Self) {
        *self
    }
}

impl Nums for i8 {
    open spec fn spec_cap() -> u8 {
        8
    }

    open spec fn bit(self, i: u8) -> bool {
        (self >> i) & 1 == 1
    }

    fn cap() -> (r: u8) {
        8
    }

    fn zero() -> (r: Self) {
        proof {
            assert(forall|i: u8| i < 8 ==> !(((0i8 >> i) & 1) == 1)) by (bit_vector);
        }
        0
    }
}

} // verus!

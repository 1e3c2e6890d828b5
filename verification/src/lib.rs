//! Bit-packed boolean collections.
//!
//! The crate stores many boolean values inside one machine integer
//! (`BetterBool`, 8 to 128 slots) or inside a growable byte vector
//! (`BetterBoolInf`).  On top of either store, a registry maps string
//! names to bit positions (`BetterBoolNamed`, `BetterBoolNamedInf`).
//!
//! Every operation carries a contract: positional reads and writes are
//! proved to touch exactly the requested slot, the cursor stays inside
//! the checked range, and the registries keep names unique and
//! positions monotonic.

pub mod bbool;
pub mod error;
pub mod inf_bbool;
pub mod inf_named_bools;
pub mod model;
pub mod named_bools;
pub mod pattern;
pub mod text;
pub mod traits;

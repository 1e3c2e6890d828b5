//! Error kinds reported by the boolean stores and the name registries.

use vstd::prelude::*;

verus! {

/// Errors that can occur while working with the boolean collections:
/// cursor and position validation, range bounds, name lookup, pattern
/// parsing and capacity limits.
#[derive(Debug, Clone)]
pub enum BBoolError {
    /// The cursor of a fixed-size store lies outside `[0, CAP)`.
    InvalidHeadPos(u8),
    /// An explicit position of a fixed-size store lies outside `[0, CAP)`.
    InvalidPos(u8),
    /// The cursor of the unbounded store lies outside the addressable range.
    InvalidHeadPosInf(usize),
    /// An explicit position of the unbounded store lies outside the
    /// addressable range.
    InvalidPosInf(usize),
    /// A range request whose end precedes its start.
    InvalidRange(usize, usize),
    /// A name that is not present in a registry.
    NotFound(String),
    /// A name or value pattern that does not fit the mass-set grammar.
    InvalidPattern(String),
    /// A value-pattern entry that is neither `true` nor `false`.
    InvalidBooleanToken(String),
    /// A fixed-width registry has no free position left.
    CollectionCapacityReached,
}

} // verus!
